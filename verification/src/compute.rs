//! What stops an expression tree from being computed: a variable where a
//! constant is needed.
use vstd::prelude::*;
use crate::subs::SubsError;
use crate::types::{lemma_node_views_index, node_view, node_views, ExpressionTree, Node, NodeView, ValueNode};

verus! {

/// Computing a tree met a variable.
#[derive(Debug, Clone, PartialEq)]
pub struct ComputeError {
    pub message: String,
}

pub open spec fn compute_error_message(variable: Seq<char>) -> Seq<char> {
    "The \""@ + variable + "\" variable is not a constant."@
}

impl ComputeError {
    pub fn new(variable: &str) -> (r: ComputeError)
        ensures
            r.message@ == compute_error_message(variable@),
    {
        let mut message = String::from_str("The \"");
        message.append(variable);
        message.append("\" variable is not a constant.");
        ComputeError { message }
    }
}

/// Why the fitness of a tree could not be measured.
#[derive(Debug, Clone, PartialEq)]
pub enum FitnessError {
    ComputeError(ComputeError),
    SubsError(SubsError),
}

/// The variable at which computing `n` stops: arguments are computed first
/// to last, each before its operation, so it is the first variable met
/// depth-first from the left; `None` when `n` holds constants only.
pub open spec fn blocking_variable(n: NodeView) -> Option<Seq<char>>
    decreases n, 1nat,
{
    match n {
        NodeView::Operator(_, args) => blocking_variable_all(args),
        NodeView::Function(_, args) => blocking_variable_all(args),
        NodeView::Variable(v) => Some(v),
        NodeView::Constant(_) => None,
    }
}

/// The first variable met in a sequence of trees.
pub open spec fn blocking_variable_all(s: Seq<NodeView>) -> Option<Seq<char>>
    decreases s, 0nat,
{
    if s.len() == 0 {
        None
    } else {
        match blocking_variable(s[0]) {
            Some(v) => Some(v),
            None => blocking_variable_all(s.subrange(1, s.len() as int)),
        }
    }
}

/// `v` occurs in `n` as a variable.
pub open spec fn mentions(n: NodeView, v: Seq<char>) -> bool
    decreases n, 1nat,
{
    match n {
        NodeView::Operator(_, args) => mentions_any(args, v),
        NodeView::Function(_, args) => mentions_any(args, v),
        NodeView::Variable(w) => w == v,
        NodeView::Constant(_) => false,
    }
}

/// `v` occurs as a variable in one of the trees of `s`.
pub open spec fn mentions_any(s: Seq<NodeView>, v: Seq<char>) -> bool
    decreases s, 0nat,
{
    if s.len() == 0 {
        false
    } else {
        mentions(s[0], v) || mentions_any(s.subrange(1, s.len() as int), v)
    }
}

/// The variable that stops computing a tree is one of its variables, and a
/// tree that mentions no variable computes.
pub proof fn law_blocking_variable_mentioned(n: NodeView)
    ensures
        blocking_variable(n) matches Some(v) ==> mentions(n, v),
        blocking_variable(n) is None <==> forall|v: Seq<char>| !mentions(n, v),
    decreases n, 1nat,
{
    match n {
        NodeView::Operator(_, args) => {
            lemma_blocking_variable_all(args);
            assert forall|v: Seq<char>| #[trigger] mentions(n, v) == mentions_any(args, v) by {}
            if let Some(v) = blocking_variable_all(args) {
                assert(mentions(n, v));
            }
        },
        NodeView::Function(_, args) => {
            lemma_blocking_variable_all(args);
            assert forall|v: Seq<char>| #[trigger] mentions(n, v) == mentions_any(args, v) by {}
            if let Some(v) = blocking_variable_all(args) {
                assert(mentions(n, v));
            }
        },
        NodeView::Variable(w) => {
            assert(mentions(n, w));
        },
        NodeView::Constant(_) => {},
    }
}

proof fn lemma_blocking_variable_all(s: Seq<NodeView>)
    ensures
        blocking_variable_all(s) matches Some(v) ==> mentions_any(s, v),
        blocking_variable_all(s) is None <==> forall|v: Seq<char>| !mentions_any(s, v),
    decreases s, 0nat,
{
    if s.len() > 0 {
        let t = s.subrange(1, s.len() as int);
        law_blocking_variable_mentioned(s[0]);
        lemma_blocking_variable_all(t);
        match blocking_variable(s[0]) {
            Some(v) => {
                assert(mentions_any(s, v));
            },
            None => match blocking_variable_all(t) {
                Some(v) => {
                    assert(mentions_any(s, v));
                },
                None => {
                    assert forall|v: Seq<char>| !mentions_any(s, v) by {
                        assert(!mentions(s[0], v));
                        assert(!mentions_any(t, v));
                    }
                },
            },
        }
    }
}

/// `r` is the error computing `n` gives, if any.
pub open spec fn is_compute_error_of(n: NodeView, r: Option<ComputeError>) -> bool {
    match blocking_variable(n) {
        Some(v) => r matches Some(e) && e.message@ == compute_error_message(v),
        None => r is None,
    }
}

impl Node {
    /// The error computing the node gives: the first variable met
    /// depth-first from the left; `None` when the node holds constants only
    /// and so computes.
    pub fn compute_error(&self) -> (r: Option<ComputeError>)
        ensures
            is_compute_error_of(node_view(*self), r),
        decreases *self,
    {
        match self {
            Node::Operator(o) => compute_error_all(&o.arguments, Ghost(*self)),
            Node::Function(f) => compute_error_all(&f.arguments, Ghost(*self)),
            Node::Value(ValueNode::Variable(v)) => Some(ComputeError::new(v.as_str())),
            Node::Value(ValueNode::Constant(_)) => None,
        }
    }
}

fn compute_error_all(args: &Vec<Node>, Ghost(parent): Ghost<Node>) -> (r: Option<ComputeError>)
    requires
        forall|i: int| 0 <= i < args@.len() ==> decreases_to!(parent => #[trigger] args@[i]),
    ensures
        match blocking_variable_all(node_views(args@)) {
            Some(v) => r matches Some(e) && e.message@ == compute_error_message(v),
            None => r is None,
        },
    decreases parent, 0nat,
{
    let ghost s = node_views(args@);
    proof {
        lemma_node_views_index(args@);
        assert(s.skip(0) =~= s);
    }
    let mut k: usize = 0;
    while k < args.len()
        invariant
            0 <= k <= args@.len(),
            s == node_views(args@),
            s.len() == args@.len(),
            forall|i: int| 0 <= i < args@.len() ==> #[trigger] s[i] == node_view(args@[i]),
            forall|i: int| 0 <= i < args@.len() ==> decreases_to!(parent => #[trigger] args@[i]),
            blocking_variable_all(s) == blocking_variable_all(s.skip(k as int)),
        decreases args@.len() - k,
    {
        proof {
            assert(s.skip(k as int)[0] == s[k as int]);
            assert(s.skip(k as int).subrange(1, s.skip(k as int).len() as int) =~= s.skip(k + 1));
        }
        assert(decreases_to!(parent => args@[k as int]));
        let e = args[k].compute_error();
        if e.is_some() {
            return e;
        }
        k = k + 1;
    }
    None
}

impl ExpressionTree {
    /// The error computing the tree gives; `None` when it computes.
    pub fn compute_error(&self) -> (r: Option<ComputeError>)
        ensures
            is_compute_error_of(self@.root, r),
    {
        self.root.compute_error()
    }
}

} // verus!
