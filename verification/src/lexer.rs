//! Lexical analysis of expressions.
use vstd::prelude::*;
use crate::settings::{find_function_spec, find_operator_spec, str_equal, Settings};
use crate::types::{Function, Operator};

verus! {

/// A token's value together with the text it was read from and the position
/// of that text in the expression.
#[derive(Debug, PartialEq)]
pub struct TokenValue<T> {
    pub value: T,
    pub string: String,
    pub position: usize,
}

/// A token of an expression. A constant carries the IEEE-754 binary64 bit
/// pattern of its value.
#[derive(Debug, PartialEq)]
pub enum Token {
    Constant(TokenValue<u64>),
    Variable(TokenValue<String>),
    Function(TokenValue<Function>),
    Operator(TokenValue<Operator>),
    OpeningBracket(TokenValue<()>),
    CloseBracket(TokenValue<()>),
    Comma(TokenValue<()>),
}

/// What a token is, with strings taken by their characters.
pub enum TokenKindView {
    Constant(u64),
    Variable(Seq<char>),
    Function(Function),
    Operator(Operator),
    OpeningBracket,
    CloseBracket,
    Comma,
}

/// A token with strings taken by their characters.
pub struct TokenView {
    pub kind: TokenKindView,
    pub string: Seq<char>,
    pub position: int,
}

impl View for Token {
    type V = TokenView;

    open spec fn view(&self) -> TokenView {
        match self {
            Token::Constant(t) => TokenView {
                kind: TokenKindView::Constant(t.value),
                string: t.string@,
                position: t.position as int,
            },
            Token::Variable(t) => TokenView {
                kind: TokenKindView::Variable(t.value@),
                string: t.string@,
                position: t.position as int,
            },
            Token::Function(t) => TokenView {
                kind: TokenKindView::Function(t.value),
                string: t.string@,
                position: t.position as int,
            },
            Token::Operator(t) => TokenView {
                kind: TokenKindView::Operator(t.value),
                string: t.string@,
                position: t.position as int,
            },
            Token::OpeningBracket(t) => TokenView {
                kind: TokenKindView::OpeningBracket,
                string: t.string@,
                position: t.position as int,
            },
            Token::CloseBracket(t) => TokenView {
                kind: TokenKindView::CloseBracket,
                string: t.string@,
                position: t.position as int,
            },
            Token::Comma(t) => TokenView {
                kind: TokenKindView::Comma,
                string: t.string@,
                position: t.position as int,
            },
        }
    }
}

/// The views of a sequence of tokens.
pub open spec fn token_views(ts: Seq<Token>) -> Seq<TokenView> {
    ts.map_values(|t: Token| t@)
}

/// `s` consists of ASCII characters.
pub open spec fn all_ascii(s: Seq<char>) -> bool {
    forall|i: int| 0 <= i < s.len() ==> (#[trigger] s[i] as u32) < 128
}

/// Rust's `char::is_whitespace` on ASCII characters: tab, line feed,
/// vertical tab, form feed, carriage return and space.
pub open spec fn is_ascii_whitespace_char(c: char) -> bool {
    c == ' ' || ('\t' <= c && c <= '\r')
}

fn is_whitespace(c: char) -> (r: bool)
    ensures
        r == is_ascii_whitespace_char(c),
{
    c == ' ' || ('\t' <= c && c <= '\r')
}

/// `read` reads `s` as `r`.
pub open spec fn reads_as<F: Fn(&str) -> Option<u64>>(read: F, s: Seq<char>, r: Option<u64>) -> bool {
    exists|x: &str| x@ == s && #[trigger] read.ensures((x,), r)
}

/// `read` can be called on any string and gives one answer per string.
pub open spec fn is_constant_reader<F: Fn(&str) -> Option<u64>>(read: F) -> bool {
    &&& forall|x: &str| #[trigger] read.requires((x,))
    &&& forall|x: &str, y: &str, r1: Option<u64>, r2: Option<u64>|
        #[trigger] read.ensures((x,), r1) && #[trigger] read.ensures((y,), r2) && x@ == y@ ==> r1
            == r2
}

/// What `read` makes of `s`: the bit pattern of the number it spells, or
/// `None` when it spells no number.
pub open spec fn read_spec<F: Fn(&str) -> Option<u64>>(read: F, s: Seq<char>) -> Option<u64> {
    choose|r: Option<u64>| reads_as(read, s, r)
}

pub(crate) proof fn lemma_read_call<F: Fn(&str) -> Option<u64>>(read: F, x: &str, r: Option<u64>)
    requires
        is_constant_reader(read),
        read.ensures((x,), r),
    ensures
        read_spec(read, x@) == r,
{
    assert(reads_as(read, x@, r));
    let r2 = read_spec(read, x@);
    assert(reads_as(read, x@, r2));
    let y = choose|y: &str| y@ == x@ && #[trigger] read.ensures((y,), r2);
    assert(read.ensures((y,), r2));
}

/// The token for a value string: a constant when `read` reads a number from
/// it, else a variable.
pub open spec fn value_token_spec<F: Fn(&str) -> Option<u64>>(read: F, s: Seq<char>, position: int) -> TokenView {
    TokenView {
        kind: match read_spec(read, s) {
            Some(b) => TokenKindView::Constant(b),
            None => TokenKindView::Variable(s),
        },
        string: s,
        position,
    }
}

/// The token for an operation or service string, if it is one: an operator
/// (unary where a unary operator is expected, else binary), else a function,
/// else a bracket or a comma.
pub open spec fn recognize_spec(
    settings: &Settings,
    s: Seq<char>,
    position: int,
    unary: bool,
) -> Option<TokenView> {
    let operator = find_operator_spec(settings.operators@, s, if unary { 1 } else { 2 });
    if operator is Some {
        Some(
            TokenView {
                kind: TokenKindView::Operator(operator.unwrap()),
                string: s,
                position,
            },
        )
    } else if find_function_spec(settings.functions@, s) is Some {
        Some(
            TokenView {
                kind: TokenKindView::Function(find_function_spec(settings.functions@, s).unwrap()),
                string: s,
                position,
            },
        )
    } else if s == seq!['('] {
        Some(TokenView { kind: TokenKindView::OpeningBracket, string: s, position })
    } else if s == seq![')'] {
        Some(TokenView { kind: TokenKindView::CloseBracket, string: s, position })
    } else if s == seq![','] {
        Some(TokenView { kind: TokenKindView::Comma, string: s, position })
    } else {
        None
    }
}

/// A unary operator is expected at the start and after an operator or an
/// opening bracket.
pub open spec fn next_operator_unary_spec(tokens: Seq<TokenView>) -> bool {
    tokens.len() == 0 || tokens.last().kind is Operator || tokens.last().kind is OpeningBracket
}

/// The first split `j` (from `j` on) of the pending text `expr[start..=i]`
/// whose tail `expr[start + j..=i]` is recognized, with the token.
pub open spec fn first_match_spec(
    settings: &Settings,
    tokens: Seq<TokenView>,
    expr: Seq<char>,
    start: int,
    i: int,
    j: int,
) -> Option<(int, TokenView)>
    decreases i + 1 - start - j,
{
    if j < 0 || start + j > i {
        None
    } else {
        match recognize_spec(
            settings,
            expr.subrange(start + j, i + 1),
            start + j,
            j == 0 && next_operator_unary_spec(tokens),
        ) {
            Some(t) => Some((j, t)),
            None => first_match_spec(settings, tokens, expr, start, i, j + 1),
        }
    }
}

/// The lexer's state between characters: the tokens so far and the start of
/// the pending text.
pub struct LexState {
    pub tokens: Seq<TokenView>,
    pub start: int,
}

/// One step of the lexer, on the character at `i`.
pub open spec fn lex_step<F: Fn(&str) -> Option<u64>>(
    settings: &Settings,
    read: F,
    expr: Seq<char>,
    st: LexState,
    i: int,
) -> LexState {
    if is_ascii_whitespace_char(expr[i]) {
        LexState {
            tokens: if i > st.start {
                st.tokens.push(
                    value_token_spec(
                        read,
                        expr.subrange(st.start, i),
                        expr.len() - (i - st.start),
                    ),
                )
            } else {
                st.tokens
            },
            start: i + 1,
        }
    } else {
        match first_match_spec(settings, st.tokens, expr, st.start, i, 0) {
            Some((j, t)) => LexState {
                tokens: if j != 0 {
                    st.tokens.push(
                        value_token_spec(read, expr.subrange(st.start, st.start + j), st.start),
                    ).push(t)
                } else {
                    st.tokens.push(t)
                },
                start: i + 1,
            },
            None => st,
        }
    }
}

/// The lexer's state after the first `k` characters.
pub open spec fn lex_prefix<F: Fn(&str) -> Option<u64>>(
    settings: &Settings,
    read: F,
    expr: Seq<char>,
    initial: Seq<TokenView>,
    k: int,
) -> LexState
    decreases k,
{
    if k <= 0 {
        LexState { tokens: initial, start: 0 }
    } else {
        lex_step(settings, read, expr, lex_prefix(settings, read, expr, initial, k - 1), k - 1)
    }
}

/// The tokens of `expr`, appended to `initial`.
pub open spec fn lex_spec<F: Fn(&str) -> Option<u64>>(
    settings: &Settings,
    read: F,
    expr: Seq<char>,
    initial: Seq<TokenView>,
) -> Seq<TokenView> {
    let st = lex_prefix(settings, read, expr, initial, expr.len() as int);
    if st.start < expr.len() {
        st.tokens.push(
            value_token_spec(read, expr.subrange(st.start, expr.len() as int), st.start),
        )
    } else {
        st.tokens
    }
}

/// The texts of `ts`, one after another.
pub open spec fn token_text(ts: Seq<TokenView>) -> Seq<char>
    decreases ts.len(),
{
    if ts.len() == 0 {
        Seq::empty()
    } else {
        token_text(ts.drop_last()) + ts.last().string
    }
}

/// `s` with its whitespace taken out.
pub open spec fn without_whitespace(s: Seq<char>) -> Seq<char> {
    s.filter(|c: char| !is_ascii_whitespace_char(c))
}

proof fn lemma_token_text_push(ts: Seq<TokenView>, t: TokenView)
    ensures
        token_text(ts.push(t)) == token_text(ts) + t.string,
{
    assert(ts.push(t).drop_last() =~= ts);
}

proof fn lemma_without_whitespace_push(s: Seq<char>, c: char)
    ensures
        without_whitespace(s.push(c)) == if is_ascii_whitespace_char(c) {
            without_whitespace(s)
        } else {
            without_whitespace(s).push(c)
        },
{
    reveal(Seq::filter);
    assert(s.push(c).drop_last() =~= s);
}

/// What `first_match_spec` finds is a split of the pending text whose tail
/// is the found token's text.
proof fn lemma_first_match_text(
    settings: &Settings,
    tokens: Seq<TokenView>,
    expr: Seq<char>,
    start: int,
    i: int,
    j: int,
)
    requires
        0 <= j,
        first_match_spec(settings, tokens, expr, start, i, j) is Some,
    ensures
        ({
            let (k, t) = first_match_spec(settings, tokens, expr, start, i, j).unwrap();
            &&& j <= k
            &&& start + k <= i
            &&& t.string == expr.subrange(start + k, i + 1)
        }),
    decreases i + 1 - start - j,
{
    let unary = j == 0 && next_operator_unary_spec(tokens);
    if recognize_spec(settings, expr.subrange(start + j, i + 1), start + j, unary) is None {
        lemma_first_match_text(settings, tokens, expr, start, i, j + 1);
    }
}

/// After the first `k` characters, the texts of the new tokens followed by
/// the pending text are those characters without their whitespace.
proof fn lemma_lex_prefix_text<F: Fn(&str) -> Option<u64>>(
    settings: &Settings,
    read: F,
    expr: Seq<char>,
    initial: Seq<TokenView>,
    k: int,
)
    requires
        0 <= k <= expr.len(),
    ensures
        ({
            let st = lex_prefix(settings, read, expr, initial, k);
            &&& 0 <= st.start <= k
            &&& token_text(st.tokens) + expr.subrange(st.start, k) == token_text(initial)
                + without_whitespace(expr.subrange(0, k))
        }),
    decreases k,
{
    if k == 0 {
        reveal(Seq::filter);
        assert(expr.subrange(0, 0) =~= Seq::<char>::empty());
        assert(token_text(initial) + Seq::<char>::empty() =~= token_text(initial));
    } else {
        let i = k - 1;
        lemma_lex_prefix_text(settings, read, expr, initial, i);
        let st = lex_prefix(settings, read, expr, initial, i);
        let next = lex_prefix(settings, read, expr, initial, k);
        assert(expr.subrange(0, k) =~= expr.subrange(0, i).push(expr[i]));
        lemma_without_whitespace_push(expr.subrange(0, i), expr[i]);
        let before = token_text(initial) + without_whitespace(expr.subrange(0, i));
        assert(token_text(st.tokens) + expr.subrange(st.start, i) == before);
        if is_ascii_whitespace_char(expr[i]) {
            if i > st.start {
                lemma_token_text_push(
                    st.tokens,
                    value_token_spec(read, expr.subrange(st.start, i), expr.len() - (i - st.start)),
                );
            } else {
                assert(expr.subrange(st.start, i) =~= Seq::<char>::empty());
            }
            assert(expr.subrange(k, k) =~= Seq::<char>::empty());
            assert(token_text(next.tokens) + expr.subrange(k, k) =~= token_text(next.tokens));
            assert(token_text(initial) + without_whitespace(expr.subrange(0, k)) == before);
        } else {
            assert(expr.subrange(st.start, k) =~= expr.subrange(st.start, i).push(expr[i]));
            assert(token_text(initial) + without_whitespace(expr.subrange(0, k)) =~= before.push(expr[i]));
            let m = first_match_spec(settings, st.tokens, expr, st.start, i, 0);
            match m {
                Some((j, t)) => {
                    lemma_first_match_text(settings, st.tokens, expr, st.start, i, 0);
                    let head = value_token_spec(read, expr.subrange(st.start, st.start + j), st.start);
                    if j != 0 {
                        lemma_token_text_push(st.tokens, head);
                        lemma_token_text_push(st.tokens.push(head), t);
                        assert(expr.subrange(st.start, k) =~= expr.subrange(st.start, st.start + j)
                            + expr.subrange(st.start + j, k));
                    } else {
                        lemma_token_text_push(st.tokens, t);
                    }
                    assert(expr.subrange(k, k) =~= Seq::<char>::empty());
                    assert(token_text(next.tokens) + expr.subrange(k, k) =~= token_text(next.tokens));
                    assert(token_text(next.tokens) =~= token_text(st.tokens) + expr.subrange(st.start, k));
                },
                None => {
                    assert(next == st);
                    assert(token_text(st.tokens) + expr.subrange(st.start, k) =~= (token_text(st.tokens)
                        + expr.subrange(st.start, i)).push(expr[i]));
                },
            }
        }
    }
}

/// Lexing loses no character but whitespace and adds none: the texts of the
/// tokens of `expr`, one after another, are `expr` without its whitespace
/// (after the texts of the tokens it is appended to).
pub proof fn law_tokens_spell_expression<F: Fn(&str) -> Option<u64>>(
    settings: &Settings,
    read: F,
    expr: Seq<char>,
    initial: Seq<TokenView>,
)
    ensures
        token_text(lex_spec(settings, read, expr, initial)) == token_text(initial) + without_whitespace(expr),
{
    let n = expr.len() as int;
    lemma_lex_prefix_text(settings, read, expr, initial, n);
    let st = lex_prefix(settings, read, expr, initial, n);
    assert(expr.subrange(0, n) =~= expr);
    if st.start < n {
        lemma_token_text_push(st.tokens, value_token_spec(read, expr.subrange(st.start, n), st.start));
    } else {
        assert(expr.subrange(st.start, n) =~= Seq::<char>::empty());
        assert(token_text(st.tokens) + Seq::<char>::empty() =~= token_text(st.tokens));
    }
}

} // verus!

verus! {

pub open spec fn option_token_view(t: Option<Token>) -> Option<TokenView> {
    match t {
        Some(t) => Some(t@),
        None => None,
    }
}

/// Splits an expression into tokens.
pub struct Lexer<'a> {
    pub expression: String,
    pub settings: &'a Settings,
    pub tokens: Vec<Token>,
}

impl<'a> Lexer<'a> {
    pub fn new(expression: &str, settings: &'a Settings) -> (r: Lexer<'a>)
        ensures
            r.expression@ == expression@,
            r.settings == settings,
            r.tokens@.len() == 0,
    {
        Lexer { expression: String::from_str(expression), settings, tokens: Vec::new() }
    }

    pub fn recognize_value_string<F: Fn(&str) -> Option<u64>>(string: &str, position: usize, read: &F) -> (r: Token)
        requires
            is_constant_reader(*read),
        ensures
            r@ == value_token_spec(*read, string@, position as int),
    {
        let result = read(string);
        proof {
            lemma_read_call(*read, string, result);
        }
        match result {
            Some(constant) => Token::Constant(
                TokenValue { value: constant, string: String::from_str(string), position },
            ),
            None => Token::Variable(
                TokenValue {
                    value: String::from_str(string),
                    string: String::from_str(string),
                    position,
                },
            ),
        }
    }

    pub fn recognize_string(&self, string: &str, position: usize, is_next_operator_unary: bool) -> (r:
        Option<Token>)
        ensures
            option_token_view(r) == recognize_spec(
                self.settings,
                string@,
                position as int,
                is_next_operator_unary,
            ),
    {
        match self.recognize_operation_string(string, position, is_next_operator_unary) {
            Some(t) => Some(t),
            None => Lexer::recognize_service_string(string, position),
        }
    }

    pub fn recognize_operation_string(&self, string: &str, position: usize, is_next_operator_unary: bool) -> (r:
        Option<Token>)
        ensures
            ({
                let operator = find_operator_spec(
                    self.settings.operators@,
                    string@,
                    if is_next_operator_unary {
                        1
                    } else {
                        2
                    },
                );
                let function = find_function_spec(self.settings.functions@, string@);
                &&& operator is Some ==> option_token_view(r) == Some(
                    TokenView {
                        kind: TokenKindView::Operator(operator.unwrap()),
                        string: string@,
                        position: position as int,
                    },
                )
                &&& operator is None && function is Some ==> option_token_view(r) == Some(
                    TokenView {
                        kind: TokenKindView::Function(function.unwrap()),
                        string: string@,
                        position: position as int,
                    },
                )
                &&& operator is None && function is None ==> r is None
            }),
    {
        let operator_option = if is_next_operator_unary {
            self.settings.find_unary_operator_by_name(string)
        } else {
            self.settings.find_binary_operator_by_name(string)
        };
        if let Some(operator) = operator_option {
            return Some(
                Token::Operator(
                    TokenValue { value: operator, string: String::from_str(string), position },
                ),
            );
        }
        if let Some(function) = self.settings.find_function_by_name(string) {
            return Some(
                Token::Function(
                    TokenValue { value: function, string: String::from_str(string), position },
                ),
            );
        }
        None
    }

    pub fn is_next_operator_unary(&self) -> (r: bool)
        ensures
            r == next_operator_unary_spec(token_views(self.tokens@)),
    {
        if self.tokens.len() == 0 {
            return true;
        }
        let last = &self.tokens[self.tokens.len() - 1];
        assert(token_views(self.tokens@).last() == last@);
        match last {
            Token::Operator(_) => true,
            Token::OpeningBracket(_) => true,
            _ => false,
        }
    }

    pub fn recognize_service_string(string: &str, position: usize) -> (r: Option<Token>)
        ensures
            option_token_view(r) == (if string@ == seq!['('] {
                Some(TokenView { kind: TokenKindView::OpeningBracket, string: string@, position: position as int })
            } else if string@ == seq![')'] {
                Some(TokenView { kind: TokenKindView::CloseBracket, string: string@, position: position as int })
            } else if string@ == seq![','] {
                Some(TokenView { kind: TokenKindView::Comma, string: string@, position: position as int })
            } else {
                None
            }),
    {
        proof {
            reveal_strlit("(");
            reveal_strlit(")");
            reveal_strlit(",");
            assert("("@ =~= seq!['(']);
            assert(")"@ =~= seq![')']);
            assert(","@ =~= seq![',']);
        }
        if str_equal(string, "(") {
            Some(Token::OpeningBracket(TokenValue { value: (), string: String::from_str(string), position }))
        } else if str_equal(string, ")") {
            Some(Token::CloseBracket(TokenValue { value: (), string: String::from_str(string), position }))
        } else if str_equal(string, ",") {
            Some(Token::Comma(TokenValue { value: (), string: String::from_str(string), position }))
        } else {
            None
        }
    }
}

} // verus!

verus! {

impl<'a> Lexer<'a> {
    /// Splits the expression into tokens, appended to `tokens`. Whitespace
    /// separates tokens; within a run of other characters, the shortest
    /// pending text whose tail is an operator, a function, a bracket or a
    /// comma ends there, its head (if any) becoming a value token. `read`
    /// tells constants from variables.
    pub fn perform_lexical_analysis<F: Fn(&str) -> Option<u64>>(&mut self, read: &F)
        requires
            all_ascii(old(self).expression@),
            is_constant_reader(*read),
        ensures
            final(self).expression == old(self).expression,
            final(self).settings == old(self).settings,
            token_views(final(self).tokens@) == lex_spec(
                old(self).settings,
                *read,
                old(self).expression@,
                token_views(old(self).tokens@),
            ),
            token_text(token_views(final(self).tokens@)) == token_text(token_views(old(self).tokens@))
                + without_whitespace(old(self).expression@),
    {
        let ghost expr = self.expression@;
        let ghost initial = token_views(self.tokens@);
        let n = self.expression.as_str().unicode_len();
        let mut p: usize = 0;
        let mut i: usize = 0;
        while i < n
            invariant
                n == expr.len(),
                expr == self.expression@,
                self.expression == old(self).expression,
                self.settings == old(self).settings,
                is_constant_reader(*read),
                0 <= p <= i <= n,
                lex_prefix(self.settings, *read, expr, initial, i as int) == (LexState {
                    tokens: token_views(self.tokens@),
                    start: p as int,
                }),
            decreases n - i,
        {
            let c = self.expression.as_str().get_char(i);
            let ghost before = token_views(self.tokens@);
            if is_whitespace(c) {
                if i > p {
                    let s = self.expression.as_str().substring_char(p, i);
                    let t = Lexer::recognize_value_string(s, n - (i - p), read);
                    self.tokens.push(t);
                    proof {
                        assert(token_views(self.tokens@) =~= before.push(t@));
                    }
                }
                p = i + 1;
            } else {
                let len = i + 1 - p;
                let mut j: usize = 0;
                let mut found = false;
                while j < len
                    invariant_except_break
                        first_match_spec(self.settings, before, expr, p as int, i as int, 0)
                            == first_match_spec(self.settings, before, expr, p as int, i as int, j as int),
                        token_views(self.tokens@) == before,
                        !found,
                    invariant
                        n == expr.len(),
                        expr == self.expression@,
                        self.expression == old(self).expression,
                        self.settings == old(self).settings,
                        is_constant_reader(*read),
                        0 <= p <= i < n,
                        len == i + 1 - p,
                        0 <= j <= len,
                    ensures
                        found ==> ({
                            let m = first_match_spec(self.settings, before, expr, p as int, i as int, 0);
                            &&& m is Some
                            &&& token_views(self.tokens@) == (if m.unwrap().0 != 0 {
                                before.push(
                                    value_token_spec(*read, expr.subrange(p as int, p + m.unwrap().0), p as int),
                                ).push(m.unwrap().1)
                            } else {
                                before.push(m.unwrap().1)
                            })
                        }),
                        !found ==> first_match_spec(self.settings, before, expr, p as int, i as int, 0) is None
                            && token_views(self.tokens@) == before,
                    decreases len - j,
                {
                    let s = self.expression.as_str().substring_char(p + j, i + 1);
                    let unary = j == 0 && self.is_next_operator_unary();
                    match self.recognize_string(s, p + j, unary) {
                        Some(token) => {
                            if j != 0 {
                                let head = self.expression.as_str().substring_char(p, p + j);
                                let t = Lexer::recognize_value_string(head, p, read);
                                self.tokens.push(t);
                                self.tokens.push(token);
                                proof {
                                    assert(token_views(self.tokens@) =~= before.push(t@).push(token@));
                                }
                            } else {
                                self.tokens.push(token);
                                proof {
                                    assert(token_views(self.tokens@) =~= before.push(token@));
                                }
                            }
                            found = true;
                            break;
                        },
                        None => {},
                    }
                    j = j + 1;
                }
                if found {
                    p = i + 1;
                }
            }
            i = i + 1;
        }
        if n > p {
            let s = self.expression.as_str().substring_char(p, n);
            let t = Lexer::recognize_value_string(s, n - (n - p), read);
            let ghost before = token_views(self.tokens@);
            self.tokens.push(t);
            proof {
                assert(token_views(self.tokens@) =~= before.push(t@));
            }
        }
        proof {
            law_tokens_spell_expression(self.settings, *read, expr, initial);
        }
    }
}

} // verus!

verus! {

impl Clone for Token {
    fn clone(&self) -> (r: Self)
        ensures
            r == *self,
    {
        match self {
            Token::Constant(t) => Token::Constant(
                TokenValue { value: t.value, string: t.string.clone(), position: t.position },
            ),
            Token::Variable(t) => Token::Variable(
                TokenValue { value: t.value.clone(), string: t.string.clone(), position: t.position },
            ),
            Token::Function(t) => Token::Function(
                TokenValue { value: t.value.clone(), string: t.string.clone(), position: t.position },
            ),
            Token::Operator(t) => Token::Operator(
                TokenValue { value: t.value.clone(), string: t.string.clone(), position: t.position },
            ),
            Token::OpeningBracket(t) => Token::OpeningBracket(
                TokenValue { value: t.value, string: t.string.clone(), position: t.position },
            ),
            Token::CloseBracket(t) => Token::CloseBracket(
                TokenValue { value: t.value, string: t.string.clone(), position: t.position },
            ),
            Token::Comma(t) => Token::Comma(
                TokenValue { value: t.value, string: t.string.clone(), position: t.position },
            ),
        }
    }
}

} // verus!
