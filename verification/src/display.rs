//! Printing expression trees as infix expressions.
//!
//! How a constant is printed is up to the caller: it hands over a function
//! from the bit pattern of the constant to its text.
use vstd::prelude::*;
use crate::types::{ExpressionTree, Function, Node, OperationNode, Operator, ValueNode};

verus! {

/// `write` can be called on every bit pattern and gives text of the same
/// characters each time it is called on the same one.
pub open spec fn is_constant_writer<F: Fn(u64) -> String>(write: F) -> bool {
    &&& forall|b: u64| #[trigger] write.requires((b,))
    &&& forall|b: u64, r1: String, r2: String|
        #[trigger] write.ensures((b,), r1) && #[trigger] write.ensures((b,), r2) ==> r1@ == r2@
}

/// `write` may give text `s` for the bit pattern `b`.
pub open spec fn writes_as<F: Fn(u64) -> String>(write: F, b: u64, s: Seq<char>) -> bool {
    exists|r: String| #[trigger] write.ensures((b,), r) && r@ == s
}

/// The text that `write` gives for the bit pattern `b`.
pub open spec fn write_spec<F: Fn(u64) -> String>(write: F, b: u64) -> Seq<char> {
    choose|s: Seq<char>| writes_as(write, b, s)
}

proof fn lemma_write_call<F: Fn(u64) -> String>(write: F, b: u64, r: String)
    requires
        is_constant_writer(write),
        write.ensures((b,), r),
    ensures
        write_spec(write, b) == r@,
{
    assert(writes_as(write, b, r@));
    let s = write_spec(write, b);
    assert(writes_as(write, b, s));
    let r2 = choose|r2: String| #[trigger] write.ensures((b,), r2) && r2@ == s;
    assert(write.ensures((b,), r2));
}

/// Every operator node of `n` that is not binary is unary and has an
/// argument (others cannot be printed).
pub open spec fn printable(n: Node) -> bool
    decreases n,
{
    match n {
        Node::Operator(o) => {
            &&& (o.operation.arguments_number == 2 || (o.operation.arguments_number == 1 && o.arguments@.len() > 0))
            &&& forall|k: int| 0 <= k < o.arguments@.len() ==> printable(#[trigger] o.arguments@[k])
        },
        Node::Function(f) => forall|k: int| 0 <= k < f.arguments@.len() ==> printable(#[trigger] f.arguments@[k]),
        Node::Value(_) => true,
    }
}

/// An argument of a binary operator `parent` is put in brackets when it is
/// an operator that is not applied before `parent`.
pub open spec fn in_brackets(parent: Option<Operator>, a: Node) -> bool {
    &&& parent is Some
    &&& a matches Node::Operator(ao) && !ao.operation.computed_before(&parent->0)
}

/// The text of a node: a binary operator between its arguments (each in
/// brackets when it has to be), a unary operator before its argument, a
/// function before its arguments in brackets, separated by commas, a
/// variable by its name, a constant as `write` prints it.
pub open spec fn text_spec<F: Fn(u64) -> String>(n: Node, write: F) -> Seq<char>
    decreases n, 1nat,
{
    match n {
        Node::Operator(o) => if o.operation.arguments_number == 2 {
            joined_spec(Some(o.operation), o.arguments@, seq![' '] + o.operation.name@ + seq![' '], write)
        } else if o.arguments@.len() > 0 {
            o.operation.name@ + text_spec(o.arguments@[0], write)
        } else {
            o.operation.name@
        },
        Node::Function(f) => f.operation.name@ + seq!['('] + joined_spec(None, f.arguments@, seq![',', ' '], write)
            + seq![')'],
        Node::Value(ValueNode::Variable(v)) => v@,
        Node::Value(ValueNode::Constant(b)) => write_spec(write, b),
    }
}

/// The texts of `args`, in brackets where `in_brackets` says so, with `sep`
/// between each two.
pub open spec fn joined_spec<F: Fn(u64) -> String>(
    parent: Option<Operator>,
    args: Seq<Node>,
    sep: Seq<char>,
    write: F,
) -> Seq<char>
    decreases args, 0nat,
{
    if args.len() == 0 {
        seq![]
    } else {
        let last = args[args.len() - 1];
        let shown = if in_brackets(parent, last) {
            seq!['('] + text_spec(last, write) + seq![')']
        } else {
            text_spec(last, write)
        };
        if args.len() == 1 {
            shown
        } else {
            joined_spec(parent, args.subrange(0, args.len() - 1), sep, write) + sep + shown
        }
    }
}

/// An argument `a` of the binary operator `parent` that is itself an
/// operator binding less tightly than `parent` (a lower precedence, or the
/// same precedence under a right-associative `parent`).
pub open spec fn binds_looser(parent: Operator, a: Node) -> bool {
    a matches Node::Operator(ao) && (ao.operation.precedence < parent.precedence || (ao.operation.precedence
        == parent.precedence && parent.associativity == crate::types::Associativity::Right))
}

/// A binary operator node with two arguments prints as its first argument,
/// its name between two spaces, and its second argument; each argument,
/// first or second alike, stands in brackets exactly when it binds less
/// tightly than the operator, so that `(a ^ b) ^ c` keeps its brackets and
/// `a - b * c` needs none.
pub proof fn law_binary_operator_text<F: Fn(u64) -> String>(o: OperationNode<Operator>, write: F)
    requires
        o.operation.arguments_number == 2,
        o.arguments@.len() == 2,
    ensures
        ({
            let a = o.arguments@[0];
            let b = o.arguments@[1];
            let left = if binds_looser(o.operation, a) {
                seq!['('] + text_spec(a, write) + seq![')']
            } else {
                text_spec(a, write)
            };
            let right = if binds_looser(o.operation, b) {
                seq!['('] + text_spec(b, write) + seq![')']
            } else {
                text_spec(b, write)
            };
            text_spec(Node::Operator(o), write) == left + seq![' '] + o.operation.name@ + seq![' '] + right
        }),
{
    let args = o.arguments@;
    let sep = seq![' '] + o.operation.name@ + seq![' '];
    assert(args.subrange(0, 1) =~= seq![args[0]]);
    assert(seq![args[0]].subrange(0, 0).len() == 0);
    let j1 = joined_spec(Some(o.operation), args.subrange(0, 1), sep, write);
    assert(seq![args[0]][0] == args[0]);
    assert(in_brackets(Some(o.operation), args[0]) == binds_looser(o.operation, args[0]));
    assert(in_brackets(Some(o.operation), args[1]) == binds_looser(o.operation, args[1]));
    assert(text_spec(Node::Operator(o), write) == joined_spec(Some(o.operation), args, sep, write));
    assert(args.len() == 2);
    assert(args[args.len() - 1] == args[1]);
    assert(joined_spec(Some(o.operation), args, sep, write) == j1 + sep + (if in_brackets(Some(o.operation), args[1]) {
        seq!['('] + text_spec(args[1], write) + seq![')']
    } else {
        text_spec(args[1], write)
    }));
    assert(text_spec(Node::Operator(o), write) =~= (if binds_looser(o.operation, args[0]) {
        seq!['('] + text_spec(args[0], write) + seq![')']
    } else {
        text_spec(args[0], write)
    }) + seq![' '] + o.operation.name@ + seq![' '] + (if binds_looser(o.operation, args[1]) {
        seq!['('] + text_spec(args[1], write) + seq![')']
    } else {
        text_spec(args[1], write)
    }));
}

fn node_text<F: Fn(u64) -> String>(n: &Node, write: &F) -> (text: String)
    requires
        printable(*n),
        is_constant_writer(*write),
    ensures
        text@ == text_spec(*n, *write),
    decreases *n, 2nat,
{
    let result = match n {
        Node::Operator(o) => {
            if o.operation.arguments_number == 2 {
                let mut sep = String::from_str(" ");
                sep.append(o.operation.name.as_str());
                sep.append(" ");
                proof {
                    reveal_strlit(" ");
                }
                let r = joined_text(Some(&o.operation), &o.arguments, sep.as_str(), write, Ghost(*n));
                assert(sep@ =~= seq![' '] + o.operation.name@ + seq![' ']);
                r
            } else {
                assert(decreases_to!(*n => o.arguments@[0]));
                let mut r = o.operation.name.clone();
                let a = node_text(&o.arguments[0], write);
                r.append(a.as_str());
                r
            }
        },
        Node::Function(f) => {
            proof {
                assert forall|i: int| 0 <= i < f.arguments@.len() implies decreases_to!(*n => #[trigger] f.arguments@[i]) by {
                    assert(decreases_to!(*n => f.arguments@[i]));
                }
            }
            function_text(f, write, Ghost(*n))
        },
        Node::Value(ValueNode::Variable(v)) => v.clone(),
        Node::Value(ValueNode::Constant(b)) => {
            let r = write(*b);
            proof {
                lemma_write_call(*write, *b, r);
            }
            r
        },
    };
    assert(result@ == text_spec(*n, *write));
    result
}

/// The text of a function node: its name, then its arguments in brackets,
/// separated by commas.
pub open spec fn function_text_spec<F: Fn(u64) -> String>(f: OperationNode<Function>, write: F) -> Seq<char> {
    text_spec(Node::Function(f), write)
}

fn function_text<F: Fn(u64) -> String>(f: &OperationNode<Function>, write: &F, Ghost(whole): Ghost<Node>) -> (r: String)
    requires
        forall|i: int| 0 <= i < f.arguments@.len() ==> decreases_to!(whole => #[trigger] f.arguments@[i]),
        forall|k: int| 0 <= k < f.arguments@.len() ==> printable(#[trigger] f.arguments@[k]),
        is_constant_writer(*write),
    ensures
        r@ == function_text_spec(*f, *write),
    decreases whole, 1nat,
{
    let mut r = f.operation.name.clone();
    r.append("(");
    let a = joined_text(None, &f.arguments, ", ", write, Ghost(whole));
    r.append(a.as_str());
    r.append(")");
    proof {
        reveal_strlit("(");
        reveal_strlit(", ");
        reveal_strlit(")");
        assert(", "@ =~= seq![',', ' ']);
        assert(parent_of(None) == None::<Operator>);
        assert(r@ =~= function_text_spec(*f, *write));
    }
    r
}

/// The operator behind an optional reference.
pub open spec fn parent_of(parent: Option<&Operator>) -> Option<Operator> {
    match parent {
        Some(p) => Some(*p),
        None => None,
    }
}

fn joined_text<F: Fn(u64) -> String>(
    parent: Option<&Operator>,
    args: &Vec<Node>,
    sep: &str,
    write: &F,
    Ghost(whole): Ghost<Node>,
) -> (r: String)
    requires
        forall|i: int| 0 <= i < args@.len() ==> decreases_to!(whole => #[trigger] args@[i]),
        forall|i: int| 0 <= i < args@.len() ==> printable(#[trigger] args@[i]),
        is_constant_writer(*write),
    ensures
        r@ == joined_spec(parent_of(parent), args@, sep@, *write),
    decreases whole, 0nat,
{
    let mut r = String::new();
    let mut k: usize = 0;
    while k < args.len()
        invariant
            0 <= k <= args@.len(),
            forall|i: int| 0 <= i < args@.len() ==> decreases_to!(whole => #[trigger] args@[i]),
            forall|i: int| 0 <= i < args@.len() ==> printable(#[trigger] args@[i]),
            is_constant_writer(*write),
            r@ == joined_spec(parent_of(parent), args@.take(k as int), sep@, *write),
        decreases args@.len() - k,
    {
        assert(decreases_to!(whole => args@[k as int]));
        assert(printable(args@[k as int]));
        let text = node_text(&args[k], write);
        let bracketed = match parent {
            Some(p) => match &args[k] {
                Node::Operator(ao) => !ao.operation.is_computed_before(p),
                _ => false,
            },
            None => false,
        };
        if k > 0 {
            r.append(sep);
        }
        if bracketed {
            r.append("(");
            r.append(text.as_str());
            r.append(")");
        } else {
            r.append(text.as_str());
        }
        proof {
            reveal_strlit("(");
            reveal_strlit(")");
            let next = args@.take(k + 1);
            assert(next[k as int] == args@[k as int]);
            assert(next.subrange(0, k as int) =~= args@.take(k as int));
        }
        k = k + 1;
    }
    proof {
        assert(args@.take(args@.len() as int) =~= args@);
    }
    r
}

/// The text of an operator node on its own: a unary operator before its
/// argument, a binary one between its two arguments, with no brackets.
pub open spec fn operator_node_text_spec<F: Fn(u64) -> String>(o: OperationNode<Operator>, write: F) -> Seq<char> {
    if o.operation.arguments_number == 1 {
        o.operation.name@ + text_spec(o.arguments@[0], write)
    } else {
        text_spec(o.arguments@[0], write) + seq![' '] + o.operation.name@ + seq![' '] + text_spec(o.arguments@[1], write)
    }
}

impl OperationNode<Operator> {
    /// The node as an infix expression, with constants printed by `write`:
    /// a unary operator before its argument, a binary one between its two
    /// arguments. Only unary and binary operators with that many arguments
    /// can be printed.
    pub fn to_string<F: Fn(u64) -> String>(&self, write: &F) -> (r: String)
        requires
            (self.operation.arguments_number == 1 && self.arguments@.len() >= 1) || (self.operation.arguments_number
                == 2 && self.arguments@.len() >= 2),
            forall|k: int| 0 <= k < self.arguments@.len() ==> printable(#[trigger] self.arguments@[k]),
            is_constant_writer(*write),
        ensures
            r@ == operator_node_text_spec(*self, *write),
    {
        if self.operation.arguments_number == 1 {
            let mut r = self.operation.name.clone();
            let a = node_text(&self.arguments[0], write);
            r.append(a.as_str());
            r
        } else {
            let mut r = node_text(&self.arguments[0], write);
            r.append(" ");
            r.append(self.operation.name.as_str());
            r.append(" ");
            let b = node_text(&self.arguments[1], write);
            r.append(b.as_str());
            proof {
                reveal_strlit(" ");
            }
            r
        }
    }
}

impl OperationNode<Function> {
    /// The node as a function call, with constants printed by `write`.
    pub fn to_string<F: Fn(u64) -> String>(&self, write: &F) -> (r: String)
        requires
            forall|k: int| 0 <= k < self.arguments@.len() ==> printable(#[trigger] self.arguments@[k]),
            is_constant_writer(*write),
        ensures
            r@ == function_text_spec(*self, *write),
    {
        let ghost n = Node::Function(*self);
        proof {
            assert forall|i: int| 0 <= i < self.arguments@.len() implies decreases_to!(n => #[trigger] self.arguments@[i]) by {
                let args = self.arguments@;
                assert(n matches Node::Function(g) && g == *self);
                assert(decreases_to!(n => *self));
                assert(decreases_to!(*self => self.arguments));
                assert(decreases_to!(self.arguments => args));
                assert(decreases_to!(args => args[i]));
            }
        }
        function_text(self, write, Ghost(n))
    }
}

impl ValueNode {
    /// A variable by its name, a constant as `write` prints it.
    pub fn to_string<F: Fn(u64) -> String>(&self, write: &F) -> (r: String)
        requires
            is_constant_writer(*write),
        ensures
            r@ == text_spec(Node::Value(*self), *write),
    {
        match self {
            ValueNode::Variable(v) => v.clone(),
            ValueNode::Constant(b) => {
                let r = write(*b);
                proof {
                    lemma_write_call(*write, *b, r);
                }
                r
            },
        }
    }
}

impl Operator {
    /// The name of the operator.
    pub fn to_string(&self) -> (r: String)
        ensures
            r@ == self.name@,
    {
        self.name.clone()
    }
}

impl Function {
    /// The name of the function.
    pub fn to_string(&self) -> (r: String)
        ensures
            r@ == self.name@,
    {
        self.name.clone()
    }
}

impl ExpressionTree {
    /// The tree as an infix expression, with constants printed by `write`.
    pub fn to_string<F: Fn(u64) -> String>(&self, write: &F) -> (r: String)
        requires
            printable(self.root),
            is_constant_writer(*write),
        ensures
            r@ == text_spec(self.root, *write),
    {
        node_text(&self.root, write)
    }
}

impl Node {
    /// The node as an infix expression, with constants printed by `write`.
    pub fn to_string<F: Fn(u64) -> String>(&self, write: &F) -> (r: String)
        requires
            printable(*self),
            is_constant_writer(*write),
        ensures
            r@ == text_spec(*self, *write),
    {
        node_text(self, write)
    }
}

} // verus!
