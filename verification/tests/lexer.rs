use symbolic_regression::error::{
    ErrorTokenData, InvalidArgumentsNumberError, MissingCommaError,
    MissingCommaOrOpeningBracketError, ParseError,
};
use symbolic_regression::lexer::{Lexer, Token, TokenValue};
use symbolic_regression::settings::Settings;

fn read(s: &str) -> Option<u64> {
    s.parse::<f64>().ok().map(f64::to_bits)
}

fn num(x: f64) -> u64 {
    x.to_bits()
}

fn create_one_token() -> Token {
    Token::Constant(TokenValue { value: num(1.0), string: String::from("1.0"), position: 0 })
}

fn create_plus_token(settings: &Settings) -> Token {
    Token::Operator(TokenValue {
        value: settings.find_binary_operator_by_name("+").unwrap(),
        string: String::from("+"),
        position: 0,
    })
}

fn create_sin_token(settings: &Settings) -> Token {
    Token::Function(TokenValue {
        value: settings.find_function_by_name("sin").unwrap(),
        string: String::from("sin"),
        position: 0,
    })
}

fn create_opening_bracket_token() -> Token {
    Token::OpeningBracket(TokenValue { value: (), string: String::from("("), position: 0 })
}

#[test]
fn lexer_test_recognize_value_string_constant() {
    let expected_token =
        Token::Constant(TokenValue { value: num(1.0), string: String::from("1.0"), position: 5 });
    assert_eq!(expected_token, Lexer::recognize_value_string("1.0", 5, &read));
}

#[test]
fn lexer_test_recognize_value_string_variable() {
    let expected_token = Token::Variable(TokenValue {
        value: String::from("x1"),
        string: String::from("x1"),
        position: 5,
    });
    assert_eq!(expected_token, Lexer::recognize_value_string("x1", 5, &read));
}

#[test]
fn lexer_test_is_next_operator_unary() {
    let settings = Settings::default();
    let mut lexer = Lexer::new("", &settings);
    assert!(lexer.is_next_operator_unary());
    lexer.tokens = vec![create_plus_token(&settings)];
    assert!(lexer.is_next_operator_unary());
    lexer.tokens = vec![create_opening_bracket_token()];
    assert!(lexer.is_next_operator_unary());
    lexer.tokens = vec![create_one_token()];
    assert!(!lexer.is_next_operator_unary());
}

#[test]
fn lexer_test_recognize_string_unary_operator() {
    let settings = Settings::default();
    let lexer = Lexer::new("", &settings);
    let expected_token = Token::Operator(TokenValue {
        value: settings.find_unary_operator_by_name("-").unwrap(),
        string: String::from("-"),
        position: 5,
    });
    match lexer.recognize_string("-", 5, true) {
        Some(actual_token) => assert_eq!(expected_token, actual_token),
        None => panic!("Expected {:?}, but got None.", expected_token),
    }
}

#[test]
fn lexer_test_recognize_string_binary_operator() {
    let settings = Settings::default();
    let lexer = Lexer::new("", &settings);
    let expected_token = Token::Operator(TokenValue {
        value: settings.find_binary_operator_by_name("-").unwrap(),
        string: String::from("-"),
        position: 5,
    });
    match lexer.recognize_string("-", 5, false) {
        Some(actual_token) => assert_eq!(expected_token, actual_token),
        None => panic!("Expected {:?}, but got None.", expected_token),
    }
}

#[test]
fn lexer_test_recognize_string_function() {
    let settings = Settings::default();
    let lexer = Lexer::new("", &settings);
    let expected_token = Token::Function(TokenValue {
        value: settings.find_function_by_name("sin").unwrap(),
        string: String::from("sin"),
        position: 5,
    });
    match lexer.recognize_string("sin", 5, false) {
        Some(actual_token) => assert_eq!(expected_token, actual_token),
        None => panic!("Expected {:?}, but got None.", expected_token),
    }
}

#[test]
fn lexer_test_recognize_string_service() {
    let settings = Settings::default();
    let lexer = Lexer::new("", &settings);
    let expected_token =
        Token::OpeningBracket(TokenValue { value: (), string: String::from("("), position: 5 });
    match lexer.recognize_string("(", 5, false) {
        Some(actual_token) => assert_eq!(expected_token, actual_token),
        None => panic!("Expected {:?}, but got None.", expected_token),
    }
}

#[test]
fn lexer_test_recognize_string_none() {
    let settings = Settings::default();
    let lexer = Lexer::new("", &settings);
    if let Some(actual_token) = lexer.recognize_string("unknown", 5, false) {
        panic!("Expected None, but got {:?}", actual_token)
    }
}

#[test]
fn lexer_test_perform_lexical_analysis() {
    let settings = Settings::default();
    let mut lexer = Lexer::new("log(2.0, x) + cos(-1.0) - x", &settings);
    lexer.perform_lexical_analysis(&read);
    assert_eq!(
        vec![
            Token::Function(TokenValue {
                value: settings.find_function_by_name("log").unwrap(),
                string: String::from("log"),
                position: 0
            }),
            Token::OpeningBracket(TokenValue { value: (), string: String::from("("), position: 3 }),
            Token::Constant(TokenValue { value: num(2.0), string: String::from("2.0"), position: 4 }),
            Token::Comma(TokenValue { value: (), string: String::from(","), position: 7 }),
            Token::Variable(TokenValue {
                value: String::from("x"),
                string: String::from("x"),
                position: 9
            }),
            Token::CloseBracket(TokenValue { value: (), string: String::from(")"), position: 10 }),
            Token::Operator(TokenValue {
                value: settings.find_binary_operator_by_name("+").unwrap(),
                string: String::from("+"),
                position: 12
            }),
            Token::Function(TokenValue {
                value: settings.find_function_by_name("cos").unwrap(),
                string: String::from("cos"),
                position: 14
            }),
            Token::OpeningBracket(TokenValue { value: (), string: String::from("("), position: 17 }),
            Token::Operator(TokenValue {
                value: settings.find_unary_operator_by_name("-").unwrap(),
                string: String::from("-"),
                position: 18
            }),
            Token::Constant(TokenValue {
                value: num(1.0),
                string: String::from("1.0"),
                position: 19
            }),
            Token::CloseBracket(TokenValue { value: (), string: String::from(")"), position: 22 }),
            Token::Operator(TokenValue {
                value: settings.find_binary_operator_by_name("-").unwrap(),
                string: String::from("-"),
                position: 24
            }),
            Token::Variable(TokenValue {
                value: String::from("x"),
                string: String::from("x"),
                position: 26
            }),
        ],
        lexer.tokens
    );
}

#[test]
fn lexer_test_get_error_token_data() {
    let settings = Settings::default();
    let token = create_sin_token(&settings);
    assert_eq!(
        ErrorTokenData { string: String::from("sin"), position: 0 },
        token.get_error_token_data()
    );
}

fn check_parse_error_display() {
    assert_eq!(
        "Missing comma or opening bracket at position 5. The token string is \"sin\".",
        ParseError::MissingCommaOrOpeningBracketError(MissingCommaOrOpeningBracketError {
            data: ErrorTokenData { string: String::from("sin"), position: 5 }
        })
        .to_string()
    );
    assert_eq!(
        "Missing comma error at position 5. The token string is \"sin\".",
        ParseError::MissingCommaError(MissingCommaError {
            data: ErrorTokenData { string: String::from("sin"), position: 5 }
        })
        .to_string()
    );
    assert_eq!(
        "Invalid number of arguments at position 5, expected 2, but actually 1. Token string is \"log\".",
        ParseError::InvalidArgumentsNumberError(InvalidArgumentsNumberError {
            data: ErrorTokenData { string: String::from("log"), position: 5 },
            expected: 2,
            actual: 1
        })
        .to_string()
    );
    assert_eq!("The formula is empty.", ParseError::EmptyFormulaError.to_string());
    assert_eq!("The formula is multiple.", ParseError::MultipleFormulaError.to_string());
}

#[test]
fn error_test_parse_error_display() {
    check_parse_error_display();
}

#[test]
fn parser_test_parse_error_display() {
    check_parse_error_display();
}

#[test]
fn test_decimal_string_of_large_numbers() {
    assert_eq!("0", symbolic_regression::error::decimal_string(0));
    assert_eq!("10", symbolic_regression::error::decimal_string(10));
    assert_eq!("1234567", symbolic_regression::error::decimal_string(1234567));
}

#[test]
fn test_lexer_reads_exponents_and_leading_unary() {
    let settings = Settings::default();
    let mut lexer = Lexer::new("-2e3*x", &settings);
    lexer.perform_lexical_analysis(&read);
    assert_eq!(4, lexer.tokens.len());
    assert_eq!(
        Token::Operator(TokenValue {
            value: settings.find_unary_operator_by_name("-").unwrap(),
            string: String::from("-"),
            position: 0
        }),
        lexer.tokens[0]
    );
    assert_eq!(
        Token::Constant(TokenValue { value: num(2000.0), string: String::from("2e3"), position: 1 }),
        lexer.tokens[1]
    );
}

fn token_string(token: &Token) -> &str {
    match token {
        Token::Constant(t) => &t.string,
        Token::Variable(t) => &t.string,
        Token::Function(t) => &t.string,
        Token::Operator(t) => &t.string,
        Token::OpeningBracket(t) => &t.string,
        Token::CloseBracket(t) => &t.string,
        Token::Comma(t) => &t.string,
    }
}

#[test]
fn test_token_texts_spell_expression_without_whitespace() {
    let settings = Settings::default();
    let mut lexer = Lexer::new(" log(2.0,\tx1)  +cos( -1.0)\n- sinh ", &settings);
    lexer.perform_lexical_analysis(&read);
    let text: String = lexer.tokens.iter().map(token_string).collect();
    assert_eq!("log(2.0,x1)+cos(-1.0)-sinh", text);
}
