//! Expression parser: the shunting-yard algorithm over the lexer's tokens.
//! <https://en.wikipedia.org/wiki/Shunting_yard_algorithm>
use vstd::prelude::*;
use crate::error::{
    InvalidArgumentsNumberError, MissingCommaError,
    MissingCommaOrOpeningBracketError, ParseError, ParseErrorView,
};
use crate::lexer::{
    all_ascii, is_constant_reader, lex_spec, token_views, Lexer, Token, TokenKindView, TokenView,
};
use crate::compute::{mentions, mentions_any};
use crate::settings::{
    convert_view_spec, lemma_convert_view, transformed_view, ArgumentsTransform, Converter,
    ConverterOperation, Settings,
};
use crate::types::{
    lemma_node_views_map, node_view, node_views, string_views, ExpressionTree, Function, Node,
    NodeView, Operator, TreeView, ValueNode,
};

verus! {

/// The node that applies `operation` to `arguments`.
pub open spec fn operation_node_view(operation: ConverterOperation, arguments: Seq<NodeView>) -> NodeView {
    match operation {
        ConverterOperation::Function(f) => NodeView::Function(f, arguments),
        ConverterOperation::Operator(o) => NodeView::Operator(o, arguments),
    }
}

/// Takes the last `n` nodes of the queue as the arguments of `operation`,
/// converts, and queues the resulting node; fails when the queue holds fewer
/// than `n` nodes.
pub open spec fn operation_node_spec(
    settings: &Settings,
    queue: Seq<NodeView>,
    token: TokenView,
    operation: ConverterOperation,
    n: usize,
) -> Result<Seq<NodeView>, ParseErrorView> {
    if queue.len() < n {
        Err(
            ParseErrorView::InvalidArgumentsNumber {
                string: token.string,
                position: token.position,
                expected: n as int,
                actual: queue.len() as int,
            },
        )
    } else {
        let arguments = queue.skip(queue.len() - n);
        let converted = convert_view_spec(settings.converters@, operation, arguments);
        Ok(queue.take(queue.len() - n).push(operation_node_view(converted.0, converted.1)))
    }
}

/// Moves a token to the output queue.
pub open spec fn push_token_spec(settings: &Settings, queue: Seq<NodeView>, token: TokenView) -> Result<
    Seq<NodeView>,
    ParseErrorView,
> {
    match token.kind {
        TokenKindView::Constant(b) => Ok(queue.push(NodeView::Constant(b))),
        TokenKindView::Variable(v) => Ok(queue.push(NodeView::Variable(v))),
        TokenKindView::Function(f) => operation_node_spec(
            settings,
            queue,
            token,
            ConverterOperation::Function(f),
            f.arguments_number,
        ),
        TokenKindView::Operator(o) => operation_node_spec(
            settings,
            queue,
            token,
            ConverterOperation::Operator(o),
            o.arguments_number,
        ),
        _ => Ok(queue),
    }
}

/// Moves tokens to the output queue, first to last.
pub open spec fn push_tokens_spec(settings: &Settings, queue: Seq<NodeView>, tokens: Seq<TokenView>) -> Result<
    Seq<NodeView>,
    ParseErrorView,
>
    decreases tokens.len(),
{
    if tokens.len() == 0 {
        Ok(queue)
    } else {
        match push_token_spec(settings, queue, tokens[0]) {
            Err(e) => Err(e),
            Ok(q) => push_tokens_spec(settings, q, tokens.subrange(1, tokens.len() as int)),
        }
    }
}

/// The parser's state: output queue, operator stack and variables seen.
pub struct ParserState {
    pub queue: Seq<NodeView>,
    pub stack: Seq<TokenView>,
    pub variables: Seq<Seq<char>>,
}

/// Pops the tokens above the topmost opening bracket, top first, and what
/// remains of the stack; `None` when there is no opening bracket.
pub open spec fn pop_until_bracket(stack: Seq<TokenView>) -> Option<(Seq<TokenView>, Seq<TokenView>)>
    decreases stack.len(),
{
    if stack.len() == 0 {
        None
    } else if stack.last().kind is OpeningBracket {
        Some((seq![], stack))
    } else {
        match pop_until_bracket(stack.drop_last()) {
            Some((popped, rest)) => Some((seq![stack.last()] + popped, rest)),
            None => None,
        }
    }
}

/// On a comma or a closing bracket: moves the operators above the topmost
/// opening bracket to the queue; without an opening bracket, fails with
/// "missing comma or opening bracket" (comma) or "missing comma" (bracket).
pub open spec fn shift_until_opening_bracket_spec(settings: &Settings, st: ParserState, token: TokenView) -> Result<
    ParserState,
    ParseErrorView,
> {
    match pop_until_bracket(st.stack) {
        None => Err(
            if token.kind is Comma {
                ParseErrorView::MissingCommaOrOpeningBracket {
                    string: token.string,
                    position: token.position,
                }
            } else {
                ParseErrorView::MissingComma { string: token.string, position: token.position }
            },
        ),
        Some((popped, rest)) => match push_tokens_spec(settings, st.queue, popped) {
            Err(e) => Err(e),
            Ok(q) => Ok(ParserState { queue: q, stack: rest, variables: st.variables }),
        },
    }
}

/// On an operator `o`: moves the operators on top of the stack that are
/// applied before `o` to the queue.
pub open spec fn pop_operators_spec(settings: &Settings, st: ParserState, o: Operator) -> Result<
    ParserState,
    ParseErrorView,
>
    decreases st.stack.len(),
{
    if st.stack.len() == 0 {
        Ok(st)
    } else {
        match st.stack.last().kind {
            TokenKindView::Operator(o2) => if o2.computed_before(&o) {
                match push_token_spec(settings, st.queue, st.stack.last()) {
                    Err(e) => Err(e),
                    Ok(q) => pop_operators_spec(
                        settings,
                        ParserState { queue: q, stack: st.stack.drop_last(), variables: st.variables },
                        o,
                    ),
                }
            } else {
                Ok(st)
            },
            _ => Ok(st),
        }
    }
}

/// Handles one token.
pub open spec fn handle_token_spec(settings: &Settings, st: ParserState, token: TokenView) -> Result<
    ParserState,
    ParseErrorView,
> {
    match token.kind {
        TokenKindView::Constant(_) => match push_token_spec(settings, st.queue, token) {
            Err(e) => Err(e),
            Ok(q) => Ok(ParserState { queue: q, ..st }),
        },
        TokenKindView::Variable(v) => {
            let variables = if st.variables.contains(v) {
                st.variables
            } else {
                st.variables.push(v)
            };
            match push_token_spec(settings, st.queue, token) {
                Err(e) => Err(e),
                Ok(q) => Ok(ParserState { queue: q, stack: st.stack, variables }),
            }
        },
        TokenKindView::Function(_) => Ok(ParserState { stack: st.stack.push(token), ..st }),
        TokenKindView::OpeningBracket => Ok(ParserState { stack: st.stack.push(token), ..st }),
        TokenKindView::Comma => shift_until_opening_bracket_spec(settings, st, token),
        TokenKindView::Operator(o) => match pop_operators_spec(settings, st, o) {
            Err(e) => Err(e),
            Ok(st2) => Ok(ParserState { stack: st2.stack.push(token), ..st2 }),
        },
        TokenKindView::CloseBracket => match shift_until_opening_bracket_spec(settings, st, token) {
            Err(e) => Err(e),
            Ok(st2) => {
                let stack = st2.stack.drop_last();
                if stack.len() > 0 && stack.last().kind is Function {
                    match push_token_spec(settings, st2.queue, stack.last()) {
                        Err(e) => Err(e),
                        Ok(q) => Ok(
                            ParserState { queue: q, stack: stack.drop_last(), variables: st2.variables },
                        ),
                    }
                } else {
                    Ok(ParserState { stack, ..st2 })
                }
            },
        },
    }
}

/// Handles the tokens, first to last, stopping at the first error.
pub open spec fn handle_tokens_spec(settings: &Settings, st: ParserState, tokens: Seq<TokenView>) -> Result<
    ParserState,
    ParseErrorView,
>
    decreases tokens.len(),
{
    if tokens.len() == 0 {
        Ok(st)
    } else {
        match handle_token_spec(settings, st, tokens[0]) {
            Err(e) => Err(e),
            Ok(st2) => handle_tokens_spec(settings, st2, tokens.subrange(1, tokens.len() as int)),
        }
    }
}

/// After the last token: moves what is left on the stack to the queue; an
/// opening bracket left there is a missing comma.
pub open spec fn shift_all_spec(settings: &Settings, st: ParserState) -> Result<ParserState, ParseErrorView>
    decreases st.stack.len(),
{
    if st.stack.len() == 0 {
        Ok(st)
    } else if st.stack.last().kind is OpeningBracket {
        Err(
            ParseErrorView::MissingComma {
                string: st.stack.last().string,
                position: st.stack.last().position,
            },
        )
    } else {
        match push_token_spec(settings, st.queue, st.stack.last()) {
            Err(e) => Err(e),
            Ok(q) => shift_all_spec(
                settings,
                ParserState { queue: q, stack: st.stack.drop_last(), variables: st.variables },
            ),
        }
    }
}

/// Runs the shunting-yard algorithm on `tokens` from the empty state.
pub open spec fn run_spec(settings: &Settings, tokens: Seq<TokenView>) -> Result<ParserState, ParseErrorView> {
    match handle_tokens_spec(
        settings,
        ParserState { queue: seq![], stack: seq![], variables: seq![] },
        tokens,
    ) {
        Err(e) => Err(e),
        Ok(st) => shift_all_spec(settings, st),
    }
}

/// The result of parsing `expr`: an empty expression is an error, the
/// tokens must reduce to exactly one tree, and the tree's variables are
/// those met, in order of first occurrence.
pub open spec fn parse_spec<F: Fn(&str) -> Option<u64>>(settings: &Settings, read: F, expr: Seq<char>) -> Result<
    TreeView,
    ParseErrorView,
> {
    if expr.len() == 0 {
        Err(ParseErrorView::EmptyFormula)
    } else {
        match run_spec(settings, lex_spec(settings, read, expr, seq![])) {
            Err(e) => Err(e),
            Ok(st) => if st.queue.len() != 1 {
                Err(ParseErrorView::MultipleFormula)
            } else {
                Ok(TreeView { root: st.queue[0], variables: st.variables })
            },
        }
    }
}

} // verus!

verus! {

/// `r` reports `expected`, and on success the queue is `queue`.
pub open spec fn queue_result(
    r: Result<(), InvalidArgumentsNumberError>,
    expected: Result<Seq<NodeView>, ParseErrorView>,
    queue: Seq<NodeView>,
) -> bool {
    match expected {
        Ok(q) => r is Ok && queue == q,
        Err(e) => r matches Err(x) && x@ == e,
    }
}

/// `r` reports `expected`, and on success the state is `st`.
pub open spec fn state_result(
    r: Result<(), ParseError>,
    expected: Result<ParserState, ParseErrorView>,
    st: ParserState,
) -> bool {
    match expected {
        Ok(s) => r is Ok && st.queue == s.queue && st.stack == s.stack && st.variables == s.variables,
        Err(e) => r matches Err(x) && x@ == e,
    }
}

/// Taking the last `n` nodes of `q0` as arguments, leaving `q1`; or the
/// error when there are fewer.
pub open spec fn extract_result(
    r: Result<Vec<Node>, InvalidArgumentsNumberError>,
    q0: Seq<Node>,
    q1: Seq<Node>,
    token: TokenView,
    n: usize,
) -> bool {
    if q0.len() < n {
        r matches Err(e) && e@ == (ParseErrorView::InvalidArgumentsNumber {
            string: token.string,
            position: token.position,
            expected: n as int,
            actual: q0.len() as int,
        })
    } else {
        r matches Ok(a) && a@ == q0.skip(q0.len() - n) && q1 == q0.take(q0.len() - n)
    }
}

/// `r` is the node that `expected` queues after `queue`, or its error.
pub open spec fn node_result(
    r: Result<Node, InvalidArgumentsNumberError>,
    expected: Result<Seq<NodeView>, ParseErrorView>,
    queue: Seq<NodeView>,
) -> bool {
    match expected {
        Ok(q) => r matches Ok(node) && queue.push(node_view(node)) == q,
        Err(e) => r matches Err(x) && x@ == e,
    }
}

/// What remains below the popped tokens has the opening bracket on top.
pub proof fn lemma_pop_until_bracket_rest(stack: Seq<TokenView>)
    ensures
        pop_until_bracket(stack) matches Some((p, rest)) ==> rest.len() > 0 && rest.last().kind is OpeningBracket,
    decreases stack.len(),
{
    if stack.len() > 0 && !(stack.last().kind is OpeningBracket) {
        lemma_pop_until_bracket_rest(stack.drop_last());
    }
}

/// The shunting-yard parser: the output queue of trees, the stack of
/// operator, function and bracket tokens, and the variables met so far.
pub struct Parser<'a> {
    pub settings: &'a Settings,
    pub queue: Vec<Node>,
    pub stack: Vec<Token>,
    pub variables: Vec<String>,
}

impl<'a> Parser<'a> {
    pub open spec fn state(&self) -> ParserState {
        ParserState {
            queue: node_views(self.queue@),
            stack: token_views(self.stack@),
            variables: string_views(self.variables@),
        }
    }

    pub fn new(settings: &'a Settings) -> (r: Parser<'a>)
        ensures
            r.settings == settings,
            r.queue@.len() == 0,
            r.stack@.len() == 0,
            r.variables@.len() == 0,
    {
        Parser { settings, queue: Vec::new(), stack: Vec::new(), variables: Vec::new() }
    }

    pub fn extract_arguments(&mut self, token: &Token, arguments_number: usize) -> (r: Result<
        Vec<Node>,
        InvalidArgumentsNumberError,
    >)
        ensures
            final(self).settings == old(self).settings,
            final(self).stack == old(self).stack,
            final(self).variables == old(self).variables,
            extract_result(r, old(self).queue@, final(self).queue@, token@, arguments_number),
    {
        if self.queue.len() < arguments_number {
            return Err(
                InvalidArgumentsNumberError {
                    data: token.get_error_token_data(),
                    expected: arguments_number,
                    actual: self.queue.len(),
                },
            );
        }
        let at = self.queue.len() - arguments_number;
        let arguments = self.queue.split_off(at);
        Ok(arguments)
    }

    pub fn create_operation_node(
        &mut self,
        token: &Token,
        operation: ConverterOperation,
        arguments_number: usize,
    ) -> (r: Result<Node, InvalidArgumentsNumberError>)
        ensures
            final(self).settings == old(self).settings,
            final(self).stack == old(self).stack,
            final(self).variables == old(self).variables,
            node_result(
                r,
                operation_node_spec(
                    old(self).settings,
                    node_views(old(self).queue@),
                    token@,
                    operation,
                    arguments_number,
                ),
                node_views(final(self).queue@),
            ),
    {
        let ghost q0 = old(self).queue@;
        proof {
            lemma_node_views_map(q0);
        }
        let arguments = self.extract_arguments(token, arguments_number)?;
        proof {
            lemma_node_views_map(arguments@);
            lemma_node_views_map(self.queue@);
            assert(node_views(arguments@) =~= node_views(q0).skip(q0.len() - arguments_number));
            assert(node_views(self.queue@) =~= node_views(q0).take(q0.len() - arguments_number));
            lemma_convert_view(self.settings.converters@, operation, arguments@);
        }
        let convert_data = self.settings.convert(operation, arguments);
        let node = convert_data.to_node();
        proof {
            lemma_node_views_map(convert_data.arguments@);
        }
        Ok(node)
    }

    pub fn push_token(&mut self, token: &Token) -> (r: Result<(), InvalidArgumentsNumberError>)
        ensures
            final(self).settings == old(self).settings,
            final(self).stack == old(self).stack,
            final(self).variables == old(self).variables,
            queue_result(
                r,
                push_token_spec(old(self).settings, node_views(old(self).queue@), token@),
                node_views(final(self).queue@),
            ),
    {
        let ghost q0 = node_views(self.queue@);
        proof {
            lemma_node_views_map(self.queue@);
        }
        match token {
            Token::Constant(token_value) => {
                self.queue.push(Node::Value(ValueNode::Constant(token_value.value)));
                proof {
                    lemma_node_views_map(self.queue@);
                    assert(node_views(self.queue@) =~= q0.push(NodeView::Constant(token_value.value)));
                }
                Ok(())
            },
            Token::Variable(token_value) => {
                self.queue.push(Node::Value(ValueNode::Variable(token_value.value.clone())));
                proof {
                    lemma_node_views_map(self.queue@);
                    assert(node_views(self.queue@) =~= q0.push(NodeView::Variable(token_value.value@)));
                }
                Ok(())
            },
            Token::Function(token_value) => {
                let node = self.create_operation_node(
                    token,
                    ConverterOperation::Function(token_value.value.clone()),
                    token_value.value.arguments_number,
                )?;
                let ghost q1 = self.queue@;
                self.queue.push(node);
                proof {
                    lemma_node_views_map(q1);
                    lemma_node_views_map(self.queue@);
                    assert(node_views(self.queue@) =~= node_views(q1).push(node_view(node)));
                }
                Ok(())
            },
            Token::Operator(token_value) => {
                let node = self.create_operation_node(
                    token,
                    ConverterOperation::Operator(token_value.value.clone()),
                    token_value.value.arguments_number,
                )?;
                let ghost q1 = self.queue@;
                self.queue.push(node);
                proof {
                    lemma_node_views_map(q1);
                    lemma_node_views_map(self.queue@);
                    assert(node_views(self.queue@) =~= node_views(q1).push(node_view(node)));
                }
                Ok(())
            },
            _ => Ok(()),
        }
    }
}

} // verus!

verus! {

impl<'a> Parser<'a> {
    pub fn handle_constant(&mut self, token: Token) -> (r: Result<(), ParseError>)
        requires
            token is Constant,
        ensures
            final(self).settings == old(self).settings,
            state_result(r, handle_token_spec(old(self).settings, old(self).state(), token@), final(self).state()),
    {
        match self.push_token(&token) {
            Err(err) => Err(ParseError::InvalidArgumentsNumberError(err)),
            Ok(_) => Ok(()),
        }
    }

    pub fn handle_variable(&mut self, token: Token) -> (r: Result<(), ParseError>)
        requires
            token is Variable,
        ensures
            final(self).settings == old(self).settings,
            state_result(r, handle_token_spec(old(self).settings, old(self).state(), token@), final(self).state()),
    {
        let value = match &token {
            Token::Variable(token_value) => token_value.value.clone(),
            _ => unreached(),
        };
        let ghost vs = string_views(self.variables@);
        let mut contained = false;
        let mut i: usize = 0;
        while i < self.variables.len()
            invariant
                0 <= i <= self.variables@.len(),
                vs == string_views(self.variables@),
                contained == (exists|k: int| 0 <= k < i && vs[k] == value@),
            decreases self.variables@.len() - i,
        {
            assert(vs[i as int] == self.variables@[i as int]@);
            if self.variables[i] == value {
                contained = true;
            }
            proof {
                if contained {
                    if vs[i as int] != value@ {
                        let k = choose|k: int| 0 <= k < i && vs[k] == value@;
                        assert(0 <= k < i + 1 && vs[k] == value@);
                    }
                } else {
                    assert forall|k: int| 0 <= k < i + 1 implies vs[k] != value@ by {}
                }
            }
            i = i + 1;
        }
        proof {
            if contained {
                let k = choose|k: int| 0 <= k < i && vs[k] == value@;
                assert(vs.contains(value@));
            } else {
                assert forall|k: int| 0 <= k < vs.len() implies vs[k] != value@ by {}
            }
        }
        if !contained {
            self.variables.push(value);
            proof {
                assert(string_views(self.variables@) =~= vs.push(value@));
            }
        }
        match self.push_token(&token) {
            Err(err) => Err(ParseError::InvalidArgumentsNumberError(err)),
            Ok(_) => Ok(()),
        }
    }

    pub fn push_on_stack(&mut self, token: Token) -> (r: Result<(), ParseError>)
        requires
            token is Function || token is OpeningBracket,
        ensures
            final(self).settings == old(self).settings,
            state_result(r, handle_token_spec(old(self).settings, old(self).state(), token@), final(self).state()),
    {
        let ghost s0 = token_views(self.stack@);
        self.stack.push(token);
        proof {
            assert(token_views(self.stack@) =~= s0.push(token@));
        }
        Ok(())
    }

    pub fn handle_function(&mut self, token: Token) -> (r: Result<(), ParseError>)
        requires
            token is Function,
        ensures
            final(self).settings == old(self).settings,
            state_result(r, handle_token_spec(old(self).settings, old(self).state(), token@), final(self).state()),
    {
        self.push_on_stack(token)
    }

    pub fn handle_opening_bracket(&mut self, token: Token) -> (r: Result<(), ParseError>)
        requires
            token is OpeningBracket,
        ensures
            final(self).settings == old(self).settings,
            state_result(r, handle_token_spec(old(self).settings, old(self).state(), token@), final(self).state()),
    {
        self.push_on_stack(token)
    }

    pub fn shift_until_opening_bracket(&mut self, token: &Token) -> (r: Result<(), ParseError>)
        requires
            *token is Comma || *token is CloseBracket,
        ensures
            final(self).settings == old(self).settings,
            state_result(
                r,
                shift_until_opening_bracket_spec(old(self).settings, old(self).state(), token@),
                final(self).state(),
            ),
            pop_until_bracket(old(self).state().stack) is None ==> final(self).stack@.len() == 0 && final(self).queue
                == old(self).queue && final(self).variables == old(self).variables,
    {
        let ghost st0 = self.state();
        let mut popped: Vec<Token> = Vec::new();
        loop
            invariant_except_break
                pop_until_bracket(st0.stack) == match pop_until_bracket(token_views(self.stack@)) {
                    Some((p, rest)) => Some((token_views(popped@) + p, rest)),
                    None => None,
                },
            invariant
                self.queue == old(self).queue,
                self.variables == old(self).variables,
                self.settings == old(self).settings,
                st0 == old(self).state(),
                node_views(self.queue@) == st0.queue,
                string_views(self.variables@) == st0.variables,
                *token is Comma || *token is CloseBracket,
            ensures
                pop_until_bracket(st0.stack) == Some((token_views(popped@), token_views(self.stack@))),
            decreases self.stack@.len(),
        {
            if self.stack.len() == 0 {
                proof {
                    assert(pop_until_bracket(token_views(self.stack@)) is None);
                    assert(pop_until_bracket(st0.stack) is None);
                }
                let data = token.get_error_token_data();
                return match token {
                    Token::Comma(_) => Err(
                        ParseError::MissingCommaOrOpeningBracketError(
                            MissingCommaOrOpeningBracketError { data },
                        ),
                    ),
                    _ => Err(ParseError::MissingCommaError(MissingCommaError { data })),
                };
            }
            let ghost sv = token_views(self.stack@);
            assert(sv.last() == self.stack@[self.stack@.len() - 1]@);
            if let Token::OpeningBracket(_) = &self.stack[self.stack.len() - 1] {
                proof {
                    assert(token_views(popped@) + seq![] =~= token_views(popped@));
                }
                break;
            }
            let last = self.stack.pop().unwrap();
            let ghost p0 = token_views(popped@);
            popped.push(last);
            proof {
                assert(token_views(self.stack@) =~= sv.drop_last());
                assert(token_views(popped@) =~= p0.push(last@));
                match pop_until_bracket(sv.drop_last()) {
                    Some((p, rest)) => {
                        assert(p0 + (seq![sv.last()] + p) =~= p0.push(last@) + p);
                    },
                    None => {},
                }
            }
        }
        let ghost all = token_views(popped@);
        let ghost rest = token_views(self.stack@);
        assert(all.skip(0) =~= all);
        let mut k: usize = 0;
        while k < popped.len()
            invariant
                0 <= k <= popped@.len(),
                self.settings == old(self).settings,
                st0 == old(self).state(),
                all == token_views(popped@),
                token_views(self.stack@) == rest,
                pop_until_bracket(st0.stack) == Some((all, rest)),
                string_views(self.variables@) == st0.variables,
                push_tokens_spec(self.settings, st0.queue, all) == push_tokens_spec(
                    self.settings,
                    node_views(self.queue@),
                    all.skip(k as int),
                ),
            decreases popped@.len() - k,
        {
            let ghost q = node_views(self.queue@);
            proof {
                assert(all.skip(k as int)[0] == all[k as int]);
                assert(all.skip(k as int).subrange(1, all.skip(k as int).len() as int) =~= all.skip(k + 1));
            }
            assert(popped@[k as int]@ == all[k as int]);
            if let Err(err) = self.push_token(&popped[k]) {
                return Err(ParseError::InvalidArgumentsNumberError(err));
            }
            k = k + 1;
        }
        proof {
            assert(all.skip(all.len() as int) =~= Seq::<TokenView>::empty());
        }
        Ok(())
    }

    pub fn handle_comma(&mut self, token: Token) -> (r: Result<(), ParseError>)
        requires
            token is Comma,
        ensures
            final(self).settings == old(self).settings,
            state_result(r, handle_token_spec(old(self).settings, old(self).state(), token@), final(self).state()),
    {
        self.shift_until_opening_bracket(&token)
    }
}

} // verus!

verus! {

impl<'a> Parser<'a> {
    pub fn handle_operator(&mut self, token: Token) -> (r: Result<(), ParseError>)
        requires
            token is Operator,
        ensures
            final(self).settings == old(self).settings,
            state_result(r, handle_token_spec(old(self).settings, old(self).state(), token@), final(self).state()),
    {
        let value = match &token {
            Token::Operator(token_value) => token_value.value.clone(),
            _ => unreached(),
        };
        let ghost st0 = self.state();
        loop
            invariant_except_break
                pop_operators_spec(self.settings, st0, value) == pop_operators_spec(
                    self.settings,
                    self.state(),
                    value,
                ),
            invariant
                self.settings == old(self).settings,
                st0 == old(self).state(),
                string_views(self.variables@) == st0.variables,
                token@.kind == TokenKindView::Operator(value),
            ensures
                pop_operators_spec(self.settings, st0, value) == Ok::<ParserState, ParseErrorView>(
                    self.state(),
                ),
            decreases self.stack@.len(),
        {
            if self.stack.len() == 0 {
                break;
            }
            let ghost sv = token_views(self.stack@);
            assert(sv.last() == self.stack@[self.stack@.len() - 1]@);
            let before = match &self.stack[self.stack.len() - 1] {
                Token::Operator(token_value_o2) => token_value_o2.value.is_computed_before(&value),
                _ => false,
            };
            if before {
                let last_token = self.stack.pop().unwrap();
                proof {
                    assert(token_views(self.stack@) =~= sv.drop_last());
                }
                if let Err(err) = self.push_token(&last_token) {
                    return Err(ParseError::InvalidArgumentsNumberError(err));
                }
            } else {
                break;
            }
        }
        let ghost s1 = token_views(self.stack@);
        self.stack.push(token);
        proof {
            assert(token_views(self.stack@) =~= s1.push(token@));
        }
        Ok(())
    }

    pub fn handle_close_bracket(&mut self, token: Token) -> (r: Result<(), ParseError>)
        requires
            token is CloseBracket,
        ensures
            final(self).settings == old(self).settings,
            state_result(r, handle_token_spec(old(self).settings, old(self).state(), token@), final(self).state()),
    {
        let ghost st0 = self.state();
        self.shift_until_opening_bracket(&token)?;
        proof {
            lemma_pop_until_bracket_rest(st0.stack);
        }
        let ghost s1 = token_views(self.stack@);
        self.stack.pop();
        proof {
            assert(token_views(self.stack@) =~= s1.drop_last());
        }
        if self.stack.len() > 0 {
            let ghost s2 = token_views(self.stack@);
            assert(s2.last() == self.stack@[self.stack@.len() - 1]@);
            if let Token::Function(_) = &self.stack[self.stack.len() - 1] {
                let last_token = self.stack.pop().unwrap();
                proof {
                    assert(token_views(self.stack@) =~= s2.drop_last());
                }
                if let Err(err) = self.push_token(&last_token) {
                    return Err(ParseError::InvalidArgumentsNumberError(err));
                }
            }
        }
        Ok(())
    }

    pub fn handle_token(&mut self, token: Token) -> (r: Result<(), ParseError>)
        ensures
            final(self).settings == old(self).settings,
            state_result(r, handle_token_spec(old(self).settings, old(self).state(), token@), final(self).state()),
    {
        match token {
            Token::Constant(_) => self.handle_constant(token),
            Token::Variable(_) => self.handle_variable(token),
            Token::Function(_) => self.handle_function(token),
            Token::Comma(_) => self.handle_comma(token),
            Token::Operator(_) => self.handle_operator(token),
            Token::OpeningBracket(_) => self.handle_opening_bracket(token),
            Token::CloseBracket(_) => self.handle_close_bracket(token),
        }
    }

    pub fn shift_all(&mut self) -> (r: Result<(), ParseError>)
        ensures
            final(self).settings == old(self).settings,
            state_result(r, shift_all_spec(old(self).settings, old(self).state()), final(self).state()),
    {
        let ghost st0 = self.state();
        loop
            invariant
                self.settings == old(self).settings,
                st0 == old(self).state(),
                string_views(self.variables@) == st0.variables,
                shift_all_spec(self.settings, st0) == shift_all_spec(self.settings, self.state()),
            decreases self.stack@.len(),
        {
            if self.stack.len() == 0 {
                return Ok(());
            }
            let ghost sv = token_views(self.stack@);
            assert(sv.last() == self.stack@[self.stack@.len() - 1]@);
            if let Token::OpeningBracket(_) = &self.stack[self.stack.len() - 1] {
                return Err(
                    ParseError::MissingCommaError(
                        MissingCommaError {
                            data: self.stack[self.stack.len() - 1].get_error_token_data(),
                        },
                    ),
                );
            }
            let last_token = self.stack.pop().unwrap();
            proof {
                assert(token_views(self.stack@) =~= sv.drop_last());
            }
            if let Err(err) = self.push_token(&last_token) {
                return Err(ParseError::InvalidArgumentsNumberError(err));
            }
        }
    }

    /// Handles the tokens in order, then moves what is left on the stack.
    pub fn handle_tokens(&mut self, tokens: &Vec<Token>) -> (r: Result<(), ParseError>)
        ensures
            final(self).settings == old(self).settings,
            state_result(
                r,
                match handle_tokens_spec(old(self).settings, old(self).state(), token_views(tokens@)) {
                    Err(e) => Err(e),
                    Ok(st) => shift_all_spec(old(self).settings, st),
                },
                final(self).state(),
            ),
    {
        let ghost st0 = self.state();
        let ghost tv = token_views(tokens@);
        assert(tv.skip(0) =~= tv);
        let mut i: usize = 0;
        while i < tokens.len()
            invariant
                0 <= i <= tokens@.len(),
                tv == token_views(tokens@),
                self.settings == old(self).settings,
                st0 == old(self).state(),
                handle_tokens_spec(self.settings, st0, tv) == handle_tokens_spec(
                    self.settings,
                    self.state(),
                    tv.skip(i as int),
                ),
            decreases tokens@.len() - i,
        {
            proof {
                assert(tv.skip(i as int)[0] == tv[i as int]);
                assert(tv.skip(i as int).subrange(1, tv.skip(i as int).len() as int) =~= tv.skip(i + 1));
            }
            let token = tokens[i].clone();
            assert(token@ == tv[i as int]);
            self.handle_token(token)?;
            i = i + 1;
        }
        proof {
            assert(tv.skip(tv.len() as int) =~= Seq::<TokenView>::empty());
        }
        self.shift_all()
    }
}

impl ExpressionTree {
    /// Parses `expression` with the operators, functions and converters of
    /// `settings`; `read` reads the number, if any, that a value string
    /// spells (as an IEEE-754 binary64 bit pattern).
    pub fn parse<F: Fn(&str) -> Option<u64>>(expression: &str, settings: &Settings, read: &F) -> (r:
        Result<ExpressionTree, ParseError>)
        requires
            all_ascii(expression@),
            is_constant_reader(*read),
        ensures
            match parse_spec(settings, *read, expression@) {
                Ok(t) => r matches Ok(tree) && tree@ == t,
                Err(e) => r matches Err(x) && x@ == e,
            },
    {
        if expression.is_empty() {
            return Err(ParseError::EmptyFormulaError);
        }
        let mut lexer = Lexer::new(expression, settings);
        assert(token_views(lexer.tokens@) =~= Seq::<TokenView>::empty());
        lexer.perform_lexical_analysis(read);
        assert(token_views(lexer.tokens@) =~= lex_spec(settings, *read, expression@, seq![]));
        let mut parser = Parser::new(settings);
        proof {
            assert(parser.state().queue =~= Seq::<NodeView>::empty());
            assert(parser.state().stack =~= Seq::<TokenView>::empty());
            assert(parser.state().variables =~= Seq::<Seq<char>>::empty());
        }
        parser.handle_tokens(&lexer.tokens)?;
        proof {
            lemma_node_views_map(parser.queue@);
        }
        if parser.queue.len() != 1 {
            return Err(ParseError::MultipleFormulaError);
        }
        let root = parser.queue.pop().unwrap();
        proof {
            lemma_node_views_map(parser.queue@);
        }
        Ok(ExpressionTree { root, variables: parser.variables })
    }
}

} // verus!

verus! {

/// Every variable mentioned in the trees of `queue` is in `variables`.
pub open spec fn queue_listed(queue: Seq<NodeView>, variables: Seq<Seq<char>>) -> bool {
    forall|i: int, v: Seq<char>| 0 <= i < queue.len() && #[trigger] mentions(queue[i], v) ==> variables.contains(v)
}

/// No value token waits on the stack.
pub open spec fn stack_holds_no_values(stack: Seq<TokenView>) -> bool {
    forall|i: int| 0 <= i < stack.len() ==> !(#[trigger] stack[i].kind is Variable) && !(stack[i].kind is Constant)
}

/// The parser's variables are listed once each and cover the queue.
pub open spec fn lists_variables(st: ParserState) -> bool {
    &&& st.variables.no_duplicates()
    &&& queue_listed(st.queue, st.variables)
    &&& stack_holds_no_values(st.stack)
}

/// A variable occurs in a sequence of trees when it occurs in one of them.
pub proof fn lemma_mentions_any(s: Seq<NodeView>, v: Seq<char>)
    ensures
        mentions_any(s, v) <==> exists|i: int| 0 <= i < s.len() && #[trigger] mentions(s[i], v),
    decreases s.len(),
{
    if s.len() > 0 {
        let t = s.subrange(1, s.len() as int);
        lemma_mentions_any(t, v);
        if mentions(s[0], v) {
            assert(0 <= 0 < s.len() && mentions(s[0], v));
        }
        if mentions_any(t, v) {
            let i = choose|i: int| 0 <= i < t.len() && #[trigger] mentions(t[i], v);
            assert(mentions(s[i + 1], v));
        }
        if exists|i: int| 0 <= i < s.len() && #[trigger] mentions(s[i], v) {
            let i = choose|i: int| 0 <= i < s.len() && #[trigger] mentions(s[i], v);
            if i > 0 {
                assert(mentions(t[i - 1], v));
            }
        }
    }
}

proof fn lemma_transformed_mentions(t: ArgumentsTransform, args: Seq<NodeView>, v: Seq<char>)
    ensures
        mentions_any(transformed_view(t, args), v) ==> mentions_any(args, v),
{
    let r = transformed_view(t, args);
    lemma_mentions_any(r, v);
    lemma_mentions_any(args, v);
    if mentions_any(r, v) {
        let i = choose|i: int| 0 <= i < r.len() && #[trigger] mentions(r[i], v);
        match t {
            ArgumentsTransform::InsertConstant { position, value } => {
                if position <= args.len() {
                    if i > position {
                        assert(mentions(args[i - 1], v));
                    } else if i < position {
                        assert(mentions(args[i], v));
                    }
                }
            },
            ArgumentsTransform::AppendConstant { value } => {
                if i < args.len() {
                    assert(mentions(args[i], v));
                }
            },
            ArgumentsTransform::RemoveArgument { position } => {
                if position < args.len() {
                    if i >= position {
                        assert(mentions(args[i + 1], v));
                    } else {
                        assert(mentions(args[i], v));
                    }
                }
            },
        }
    }
}

proof fn lemma_convert_mentions(cs: Seq<Converter>, operation: ConverterOperation, args: Seq<NodeView>, v: Seq<char>)
    ensures
        mentions_any(convert_view_spec(cs, operation, args).1, v) ==> mentions_any(args, v),
    decreases cs.len(),
{
    if cs.len() > 0 {
        lemma_transformed_mentions(cs[0].transform, args, v);
        lemma_convert_mentions(cs.subrange(1, cs.len() as int), operation, args, v);
    }
}

proof fn lemma_listed_more(queue: Seq<NodeView>, variables: Seq<Seq<char>>, more: Seq<Seq<char>>)
    requires
        queue_listed(queue, variables),
        forall|v: Seq<char>| variables.contains(v) ==> #[trigger] more.contains(v),
    ensures
        queue_listed(queue, more),
{
}

proof fn lemma_operation_node_listed(
    settings: &Settings,
    queue: Seq<NodeView>,
    variables: Seq<Seq<char>>,
    token: TokenView,
    operation: ConverterOperation,
    n: usize,
)
    requires
        queue_listed(queue, variables),
    ensures
        operation_node_spec(settings, queue, token, operation, n) matches Ok(q) ==> queue_listed(q, variables),
{
    if queue.len() >= n {
        let args = queue.skip(queue.len() - n);
        let converted = convert_view_spec(settings.converters@, operation, args);
        let node = operation_node_view(converted.0, converted.1);
        let q = queue.take(queue.len() - n).push(node);
        assert forall|i: int, v: Seq<char>| 0 <= i < q.len() && #[trigger] mentions(q[i], v) implies variables.contains(v) by {
            if i < q.len() - 1 {
                assert(q[i] == queue[i]);
            } else {
                assert(mentions_any(converted.1, v));
                lemma_convert_mentions(settings.converters@, operation, args, v);
                lemma_mentions_any(args, v);
                let j = choose|j: int| 0 <= j < args.len() && #[trigger] mentions(args[j], v);
                assert(args[j] == queue[queue.len() - n + j]);
            }
        }
    }
}

proof fn lemma_push_token_listed(settings: &Settings, queue: Seq<NodeView>, variables: Seq<Seq<char>>, token: TokenView)
    requires
        queue_listed(queue, variables),
        token.kind matches TokenKindView::Variable(v) ==> variables.contains(v),
    ensures
        push_token_spec(settings, queue, token) matches Ok(q) ==> queue_listed(q, variables),
{
    match token.kind {
        TokenKindView::Constant(b) => {
            let q = queue.push(NodeView::Constant(b));
            assert forall|i: int, v: Seq<char>| 0 <= i < q.len() && #[trigger] mentions(q[i], v) implies variables.contains(v) by {
                if i < queue.len() {
                    assert(q[i] == queue[i]);
                }
            }
        },
        TokenKindView::Variable(w) => {
            let q = queue.push(NodeView::Variable(w));
            assert forall|i: int, v: Seq<char>| 0 <= i < q.len() && #[trigger] mentions(q[i], v) implies variables.contains(v) by {
                if i < queue.len() {
                    assert(q[i] == queue[i]);
                }
            }
        },
        TokenKindView::Function(f) => lemma_operation_node_listed(
            settings,
            queue,
            variables,
            token,
            ConverterOperation::Function(f),
            f.arguments_number,
        ),
        TokenKindView::Operator(o) => lemma_operation_node_listed(
            settings,
            queue,
            variables,
            token,
            ConverterOperation::Operator(o),
            o.arguments_number,
        ),
        _ => {},
    }
}

proof fn lemma_push_tokens_listed(settings: &Settings, queue: Seq<NodeView>, variables: Seq<Seq<char>>, tokens: Seq<TokenView>)
    requires
        queue_listed(queue, variables),
        stack_holds_no_values(tokens),
    ensures
        push_tokens_spec(settings, queue, tokens) matches Ok(q) ==> queue_listed(q, variables),
    decreases tokens.len(),
{
    if tokens.len() > 0 {
        assert(!(tokens[0].kind is Variable));
        lemma_push_token_listed(settings, queue, variables, tokens[0]);
        if let Ok(q) = push_token_spec(settings, queue, tokens[0]) {
            let rest = tokens.subrange(1, tokens.len() as int);
            assert forall|i: int| 0 <= i < rest.len() implies !(#[trigger] rest[i].kind is Variable) && !(rest[i].kind is Constant) by {
                assert(rest[i] == tokens[i + 1]);
            }
            lemma_push_tokens_listed(settings, q, variables, rest);
        }
    }
}

proof fn lemma_pop_until_bracket_values(stack: Seq<TokenView>)
    requires
        stack_holds_no_values(stack),
    ensures
        pop_until_bracket(stack) matches Some((popped, rest)) ==> stack_holds_no_values(popped)
            && stack_holds_no_values(rest),
    decreases stack.len(),
{
    if stack.len() > 0 && !(stack.last().kind is OpeningBracket) {
        let d = stack.drop_last();
        assert forall|i: int| 0 <= i < d.len() implies !(#[trigger] d[i].kind is Variable) && !(d[i].kind is Constant) by {
            assert(d[i] == stack[i]);
        }
        lemma_pop_until_bracket_values(d);
        if let Some((popped, rest)) = pop_until_bracket(d) {
            let p = seq![stack.last()] + popped;
            assert forall|i: int| 0 <= i < p.len() implies !(#[trigger] p[i].kind is Variable) && !(p[i].kind is Constant) by {
                if i > 0 {
                    assert(p[i] == popped[i - 1]);
                } else {
                    assert(p[0] == stack[stack.len() - 1]);
                }
            }
        }
    }
}

proof fn lemma_shift_until_listed(settings: &Settings, st: ParserState, token: TokenView)
    requires
        lists_variables(st),
    ensures
        shift_until_opening_bracket_spec(settings, st, token) matches Ok(st2) ==> lists_variables(st2)
            && st2.variables == st.variables,
{
    lemma_pop_until_bracket_values(st.stack);
    if let Some((popped, rest)) = pop_until_bracket(st.stack) {
        lemma_push_tokens_listed(settings, st.queue, st.variables, popped);
    }
}

proof fn lemma_pop_operators_listed(settings: &Settings, st: ParserState, o: Operator)
    requires
        lists_variables(st),
    ensures
        pop_operators_spec(settings, st, o) matches Ok(st2) ==> lists_variables(st2) && st2.variables
            == st.variables,
    decreases st.stack.len(),
{
    if st.stack.len() > 0 {
        if let TokenKindView::Operator(o2) = st.stack.last().kind {
            if o2.computed_before(&o) {
                assert(!(st.stack[st.stack.len() - 1].kind is Variable));
                lemma_push_token_listed(settings, st.queue, st.variables, st.stack.last());
                if let Ok(q) = push_token_spec(settings, st.queue, st.stack.last()) {
                    let next = ParserState { queue: q, stack: st.stack.drop_last(), variables: st.variables };
                    assert forall|i: int| 0 <= i < next.stack.len() implies !(#[trigger] next.stack[i].kind is Variable) && !(next.stack[i].kind is Constant) by {
                        assert(next.stack[i] == st.stack[i]);
                    }
                    lemma_pop_operators_listed(settings, next, o);
                }
            }
        }
    }
}

proof fn lemma_stack_push(stack: Seq<TokenView>, token: TokenView)
    requires
        stack_holds_no_values(stack),
        !(token.kind is Variable),
        !(token.kind is Constant),
    ensures
        stack_holds_no_values(stack.push(token)),
{
    let s = stack.push(token);
    assert forall|i: int| 0 <= i < s.len() implies !(#[trigger] s[i].kind is Variable) && !(s[i].kind is Constant) by {
        if i < stack.len() {
            assert(s[i] == stack[i]);
        }
    }
}

proof fn lemma_stack_drop(stack: Seq<TokenView>)
    requires
        stack_holds_no_values(stack),
        stack.len() > 0,
    ensures
        stack_holds_no_values(stack.drop_last()),
        !(stack.last().kind is Variable),
{
    let s = stack.drop_last();
    assert(!(stack[stack.len() - 1].kind is Variable));
    assert forall|i: int| 0 <= i < s.len() implies !(#[trigger] s[i].kind is Variable) && !(s[i].kind is Constant) by {
        assert(s[i] == stack[i]);
    }
}

proof fn lemma_handle_token_listed(settings: &Settings, st: ParserState, token: TokenView)
    requires
        lists_variables(st),
    ensures
        handle_token_spec(settings, st, token) matches Ok(st2) ==> lists_variables(st2),
{
    match token.kind {
        TokenKindView::Constant(_) => {
            lemma_push_token_listed(settings, st.queue, st.variables, token);
        },
        TokenKindView::Variable(v) => {
            let variables = if st.variables.contains(v) {
                st.variables
            } else {
                st.variables.push(v)
            };
            assert forall|w: Seq<char>| st.variables.contains(w) implies #[trigger] variables.contains(w) by {
                if !st.variables.contains(v) {
                    let k = choose|k: int| 0 <= k < st.variables.len() && st.variables[k] == w;
                    assert(variables[k] == w);
                }
            }
            if !st.variables.contains(v) {
                assert(variables[variables.len() - 1] == v);
                assert forall|a: int, b: int| 0 <= a < variables.len() && 0 <= b < variables.len() && a != b implies variables[a] != variables[b] by {
                    if a < st.variables.len() && b < st.variables.len() {
                        assert(variables[a] == st.variables[a] && variables[b] == st.variables[b]);
                    } else if a < st.variables.len() {
                        assert(variables[a] == st.variables[a]);
                    } else if b < st.variables.len() {
                        assert(variables[b] == st.variables[b]);
                    }
                }
            }
            assert(variables.contains(v));
            lemma_listed_more(st.queue, st.variables, variables);
            lemma_push_token_listed(settings, st.queue, variables, token);
        },
        TokenKindView::Function(_) => {
            lemma_stack_push(st.stack, token);
        },
        TokenKindView::OpeningBracket => {
            lemma_stack_push(st.stack, token);
        },
        TokenKindView::Comma => {
            lemma_shift_until_listed(settings, st, token);
        },
        TokenKindView::Operator(o) => {
            lemma_pop_operators_listed(settings, st, o);
            if let Ok(st2) = pop_operators_spec(settings, st, o) {
                lemma_stack_push(st2.stack, token);
            }
        },
        TokenKindView::CloseBracket => {
            lemma_shift_until_listed(settings, st, token);
            lemma_pop_until_bracket_rest(st.stack);
            if let Ok(st2) = shift_until_opening_bracket_spec(settings, st, token) {
                lemma_stack_drop(st2.stack);
                let stack = st2.stack.drop_last();
                if stack.len() > 0 && stack.last().kind is Function {
                    lemma_stack_drop(stack);
                    lemma_push_token_listed(settings, st2.queue, st2.variables, stack.last());
                }
            }
        },
    }
}

proof fn lemma_handle_tokens_listed(settings: &Settings, st: ParserState, tokens: Seq<TokenView>)
    requires
        lists_variables(st),
    ensures
        handle_tokens_spec(settings, st, tokens) matches Ok(st2) ==> lists_variables(st2),
    decreases tokens.len(),
{
    if tokens.len() > 0 {
        lemma_handle_token_listed(settings, st, tokens[0]);
        if let Ok(st2) = handle_token_spec(settings, st, tokens[0]) {
            lemma_handle_tokens_listed(settings, st2, tokens.subrange(1, tokens.len() as int));
        }
    }
}

proof fn lemma_shift_all_listed(settings: &Settings, st: ParserState)
    requires
        lists_variables(st),
    ensures
        shift_all_spec(settings, st) matches Ok(st2) ==> lists_variables(st2),
    decreases st.stack.len(),
{
    if st.stack.len() > 0 && !(st.stack.last().kind is OpeningBracket) {
        lemma_stack_drop(st.stack);
        lemma_push_token_listed(settings, st.queue, st.variables, st.stack.last());
        if let Ok(q) = push_token_spec(settings, st.queue, st.stack.last()) {
            lemma_shift_all_listed(settings, ParserState { queue: q, stack: st.stack.drop_last(), variables: st.variables });
        }
    }
}

/// A parsed tree lists each of its variables once, and every variable that
/// occurs in the tree is listed.
pub proof fn law_parse_lists_variables<F: Fn(&str) -> Option<u64>>(settings: &Settings, read: F, expr: Seq<char>)
    ensures
        parse_spec(settings, read, expr) matches Ok(t) ==> t.variables.no_duplicates() && forall|v: Seq<char>|
            #[trigger] mentions(t.root, v) ==> t.variables.contains(v),
{
    if expr.len() > 0 {
        let st0 = ParserState { queue: seq![], stack: seq![], variables: seq![] };
        let tokens = lex_spec(settings, read, expr, seq![]);
        lemma_handle_tokens_listed(settings, st0, tokens);
        if let Ok(st) = handle_tokens_spec(settings, st0, tokens) {
            lemma_shift_all_listed(settings, st);
            if let Ok(st2) = shift_all_spec(settings, st) {
                if st2.queue.len() == 1 {
                    assert forall|v: Seq<char>| #[trigger] mentions(st2.queue[0], v) implies st2.variables.contains(v) by {
                        assert(mentions(st2.queue[0], v));
                    }
                }
            }
        }
    }
}

} // verus!
