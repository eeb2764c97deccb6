//! Parse errors.
use vstd::prelude::*;
use crate::lexer::{Token, TokenValue};

verus! {

/// The text and the position of the token at which parsing failed.
#[derive(Debug, PartialEq)]
pub struct ErrorTokenData {
    pub string: String,
    pub position: usize,
}

#[derive(Debug, PartialEq)]
pub struct MissingCommaOrOpeningBracketError {
    pub data: ErrorTokenData,
}

#[derive(Debug, PartialEq)]
pub struct MissingCommaError {
    pub data: ErrorTokenData,
}

#[derive(Debug, PartialEq)]
pub struct InvalidArgumentsNumberError {
    pub data: ErrorTokenData,
    pub expected: usize,
    pub actual: usize,
}

/// Why an expression could not be parsed.
#[derive(Debug, PartialEq)]
pub enum ParseError {
    MissingCommaOrOpeningBracketError(MissingCommaOrOpeningBracketError),
    MissingCommaError(MissingCommaError),
    InvalidArgumentsNumberError(InvalidArgumentsNumberError),
    EmptyFormulaError,
    MultipleFormulaError,
}

/// A parse error with strings taken by their characters.
pub enum ParseErrorView {
    MissingCommaOrOpeningBracket { string: Seq<char>, position: int },
    MissingComma { string: Seq<char>, position: int },
    InvalidArgumentsNumber { string: Seq<char>, position: int, expected: int, actual: int },
    EmptyFormula,
    MultipleFormula,
}

impl View for InvalidArgumentsNumberError {
    type V = ParseErrorView;

    open spec fn view(&self) -> ParseErrorView {
        ParseErrorView::InvalidArgumentsNumber {
            string: self.data.string@,
            position: self.data.position as int,
            expected: self.expected as int,
            actual: self.actual as int,
        }
    }
}

impl View for ParseError {
    type V = ParseErrorView;

    open spec fn view(&self) -> ParseErrorView {
        match self {
            ParseError::MissingCommaOrOpeningBracketError(e) => ParseErrorView::MissingCommaOrOpeningBracket {
                string: e.data.string@,
                position: e.data.position as int,
            },
            ParseError::MissingCommaError(e) => ParseErrorView::MissingComma {
                string: e.data.string@,
                position: e.data.position as int,
            },
            ParseError::InvalidArgumentsNumberError(e) => e@,
            ParseError::EmptyFormulaError => ParseErrorView::EmptyFormula,
            ParseError::MultipleFormulaError => ParseErrorView::MultipleFormula,
        }
    }
}

impl<T> TokenValue<T> {
    pub fn get_error_token_data(&self) -> (r: ErrorTokenData)
        ensures
            r.string@ == self.string@,
            r.position == self.position,
    {
        ErrorTokenData { string: self.string.clone(), position: self.position }
    }
}

impl Token {
    pub fn get_error_token_data(&self) -> (r: ErrorTokenData)
        ensures
            r.string@ == self@.string,
            r.position == self@.position,
    {
        match self {
            Token::Constant(tv) => tv.get_error_token_data(),
            Token::Variable(tv) => tv.get_error_token_data(),
            Token::Function(tv) => tv.get_error_token_data(),
            Token::Operator(tv) => tv.get_error_token_data(),
            Token::OpeningBracket(tv) => tv.get_error_token_data(),
            Token::CloseBracket(tv) => tv.get_error_token_data(),
            Token::Comma(tv) => tv.get_error_token_data(),
        }
    }
}

/// The decimal digit `d`.
pub open spec fn digit_char(d: nat) -> char {
    (48 + d) as char
}

/// The decimal notation of `n`, without leading zeros.
pub open spec fn decimal_spec(n: nat) -> Seq<char>
    decreases n,
{
    if n < 10 {
        seq![digit_char(n)]
    } else {
        decimal_spec(n / 10).push(digit_char(n % 10))
    }
}

fn digit_str(d: usize) -> (r: &'static str)
    requires
        d < 10,
    ensures
        r@ == seq![digit_char(d as nat)],
{
    proof {
        reveal_strlit("0");
        reveal_strlit("1");
        reveal_strlit("2");
        reveal_strlit("3");
        reveal_strlit("4");
        reveal_strlit("5");
        reveal_strlit("6");
        reveal_strlit("7");
        reveal_strlit("8");
        reveal_strlit("9");
    }
    let r = match d {
        0 => "0",
        1 => "1",
        2 => "2",
        3 => "3",
        4 => "4",
        5 => "5",
        6 => "6",
        7 => "7",
        8 => "8",
        _ => "9",
    };
    assert(r@ =~= seq![digit_char(d as nat)]);
    r
}

/// The decimal notation of `n`.
pub fn decimal_string(n: usize) -> (r: String)
    ensures
        r@ == decimal_spec(n as nat),
    decreases n,
{
    if n < 10 {
        String::from_str(digit_str(n))
    } else {
        let mut r = decimal_string(n / 10);
        r.append(digit_str(n % 10));
        r
    }
}

/// The message of a parse error.
pub open spec fn message_spec(e: ParseErrorView) -> Seq<char> {
    match e {
        ParseErrorView::MissingCommaOrOpeningBracket { string, position } => "Missing comma or opening bracket at position "@
            + decimal_spec(position as nat) + ". The token string is \""@ + string + "\"."@,
        ParseErrorView::MissingComma { string, position } => "Missing comma error at position "@
            + decimal_spec(position as nat) + ". The token string is \""@ + string + "\"."@,
        ParseErrorView::InvalidArgumentsNumber { string, position, expected, actual } => "Invalid number of arguments at position "@
            + decimal_spec(position as nat) + ", expected "@ + decimal_spec(expected as nat)
            + ", but actually "@ + decimal_spec(actual as nat) + ". Token string is \""@ + string
            + "\"."@,
        ParseErrorView::EmptyFormula => "The formula is empty."@,
        ParseErrorView::MultipleFormula => "The formula is multiple."@,
    }
}

impl ParseError {
    /// The message of the error, as its `Display` would print it.
    pub fn to_string(&self) -> (r: String)
        ensures
            r@ == message_spec(self@),
    {
        match self {
            ParseError::MissingCommaOrOpeningBracketError(err) => {
                let mut r = String::from_str("Missing comma or opening bracket at position ");
                r.append(decimal_string(err.data.position).as_str());
                r.append(". The token string is \"");
                r.append(err.data.string.as_str());
                r.append("\".");
                r
            },
            ParseError::MissingCommaError(err) => {
                let mut r = String::from_str("Missing comma error at position ");
                r.append(decimal_string(err.data.position).as_str());
                r.append(". The token string is \"");
                r.append(err.data.string.as_str());
                r.append("\".");
                r
            },
            ParseError::InvalidArgumentsNumberError(err) => {
                let mut r = String::from_str("Invalid number of arguments at position ");
                r.append(decimal_string(err.data.position).as_str());
                r.append(", expected ");
                r.append(decimal_string(err.expected).as_str());
                r.append(", but actually ");
                r.append(decimal_string(err.actual).as_str());
                r.append(". Token string is \"");
                r.append(err.data.string.as_str());
                r.append("\".");
                r
            },
            ParseError::EmptyFormulaError => String::from_str("The formula is empty."),
            ParseError::MultipleFormulaError => String::from_str("The formula is multiple."),
        }
    }
}

} // verus!
