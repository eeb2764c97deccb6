//! Expression tree types.
use vstd::prelude::*;

verus! {

/// The side from which operators of equal precedence group.
#[derive(Debug, Clone, Copy, PartialEq, Eq, Structural)]
pub enum Associativity {
    Left,
    Right,
}

/// A named operator such as `+` or unary `-`.
#[derive(Debug, PartialEq)]
pub struct Operator {
    pub name: String,
    pub arguments_number: usize,
    pub precedence: u8,
    pub associativity: Associativity,
    pub complexity: u32,
}

/// A named function such as `sin` or `log`.
#[derive(Debug, PartialEq)]
pub struct Function {
    pub name: String,
    pub arguments_number: usize,
    pub complexity: u32,
}

impl Clone for Operator {
    fn clone(&self) -> (r: Self)
        ensures
            r == *self,
    {
        Operator {
            name: self.name.clone(),
            precedence: self.precedence,
            associativity: self.associativity,
            arguments_number: self.arguments_number,
            complexity: self.complexity,
        }
    }
}

impl Clone for Function {
    fn clone(&self) -> (r: Self)
        ensures
            r == *self,
    {
        Function {
            name: self.name.clone(),
            arguments_number: self.arguments_number,
            complexity: self.complexity,
        }
    }
}

/// What operators and functions have in common.
pub trait Operation {
    spec fn name_view(&self) -> Seq<char>;

    spec fn complexity_view(&self) -> u32;

    fn get_name(&self) -> (r: &str)
        ensures
            r@ == self.name_view(),
    ;

    fn get_complexity(&self) -> (r: u32)
        ensures
            r == self.complexity_view(),
    ;
}

impl Operation for Operator {
    open spec fn name_view(&self) -> Seq<char> {
        self.name@
    }

    open spec fn complexity_view(&self) -> u32 {
        self.complexity
    }

    fn get_name(&self) -> (r: &str) {
        self.name.as_str()
    }

    fn get_complexity(&self) -> (r: u32) {
        self.complexity
    }
}

impl Operation for Function {
    open spec fn name_view(&self) -> Seq<char> {
        self.name@
    }

    open spec fn complexity_view(&self) -> u32 {
        self.complexity
    }

    fn get_name(&self) -> (r: &str) {
        self.name.as_str()
    }

    fn get_complexity(&self) -> (r: u32) {
        self.complexity
    }
}

impl Operator {
    /// Whether `self`, standing on the operator stack, is applied before
    /// `other` arrives: higher precedence wins, and on equal precedence the
    /// associativity of `other` decides (left: yes, right: no).
    pub open spec fn computed_before(&self, other: &Operator) -> bool {
        self.precedence > other.precedence || (self.precedence == other.precedence
            && other.associativity == Associativity::Left)
    }

    pub fn is_computed_before(&self, other: &Operator) -> (r: bool)
        ensures
            r == self.computed_before(other),
    {
        if self.precedence == other.precedence {
            match other.associativity {
                Associativity::Left => true,
                Associativity::Right => false,
            }
        } else {
            self.precedence > other.precedence
        }
    }
}

/// An operator or function applied to argument subtrees.
#[derive(Debug, PartialEq)]
pub struct OperationNode<T> {
    pub operation: T,
    pub arguments: Vec<Node>,
}

/// A leaf: a variable name or a constant. A constant is held as the
/// IEEE-754 binary64 bit pattern of its value.
#[derive(Debug, PartialEq)]
pub enum ValueNode {
    Variable(String),
    Constant(u64),
}

/// A node of an expression tree.
#[derive(Debug, PartialEq)]
pub enum Node {
    Operator(OperationNode<Operator>),
    Function(OperationNode<Function>),
    Value(ValueNode),
}

/// An expression tree with the list of variables it ranges over.
#[derive(Debug, PartialEq)]
pub struct ExpressionTree {
    pub root: Node,
    pub variables: Vec<String>,
}

impl Clone for ValueNode {
    fn clone(&self) -> (r: Self)
        ensures
            r == *self,
    {
        match self {
            ValueNode::Variable(v) => ValueNode::Variable(v.clone()),
            ValueNode::Constant(c) => ValueNode::Constant(*c),
        }
    }
}

/// The arguments of a node (none for a value).
pub open spec fn arguments_of(n: Node) -> Seq<Node> {
    match n {
        Node::Operator(o) => o.arguments@,
        Node::Function(f) => f.arguments@,
        Node::Value(_) => seq![],
    }
}

/// The nodes of a tree in pre-order: the node itself, then the pre-order of
/// each argument from first to last.
pub open spec fn preorder(n: Node) -> Seq<Node>
    decreases n, 1nat,
{
    match n {
        Node::Operator(o) => seq![n] + preorder_all(o.arguments@),
        Node::Function(f) => seq![n] + preorder_all(f.arguments@),
        Node::Value(_) => seq![n],
    }
}

/// The concatenated pre-orders of a sequence of trees.
pub open spec fn preorder_all(s: Seq<Node>) -> Seq<Node>
    decreases s, 0nat,
{
    if s.len() == 0 {
        seq![]
    } else {
        preorder(s[0]) + preorder_all(s.subrange(1, s.len() as int))
    }
}

} // verus!

verus! {

/// A node with strings taken by their characters.
pub enum NodeView {
    Operator(Operator, Seq<NodeView>),
    Function(Function, Seq<NodeView>),
    Variable(Seq<char>),
    Constant(u64),
}

pub open spec fn node_view(n: Node) -> NodeView
    decreases n, 1nat,
{
    match n {
        Node::Operator(o) => NodeView::Operator(o.operation, node_views(o.arguments@)),
        Node::Function(f) => NodeView::Function(f.operation, node_views(f.arguments@)),
        Node::Value(ValueNode::Variable(v)) => NodeView::Variable(v@),
        Node::Value(ValueNode::Constant(c)) => NodeView::Constant(c),
    }
}

pub open spec fn node_views(s: Seq<Node>) -> Seq<NodeView>
    decreases s, 0nat,
{
    if s.len() == 0 {
        seq![]
    } else {
        seq![node_view(s[0])] + node_views(s.subrange(1, s.len() as int))
    }
}

/// The views of strings.
pub open spec fn string_views(s: Seq<String>) -> Seq<Seq<char>> {
    s.map_values(|x: String| x@)
}

/// Pushing a string pushes its view.
pub proof fn lemma_string_views_push(s: Seq<String>, x: String)
    ensures
        string_views(s.push(x)) == string_views(s).push(x@),
{
    assert(string_views(s.push(x)) =~= string_views(s).push(x@));
}

/// An expression tree with strings taken by their characters.
pub struct TreeView {
    pub root: NodeView,
    pub variables: Seq<Seq<char>>,
}

impl View for ExpressionTree {
    type V = TreeView;

    open spec fn view(&self) -> TreeView {
        TreeView { root: node_view(self.root), variables: string_views(self.variables@) }
    }
}

pub proof fn lemma_node_views_index(s: Seq<Node>)
    ensures
        node_views(s).len() == s.len(),
        forall|i: int| 0 <= i < s.len() ==> #[trigger] node_views(s)[i] == node_view(s[i]),
    decreases s.len(),
{
    if s.len() > 0 {
        let t = s.subrange(1, s.len() as int);
        lemma_node_views_index(t);
        assert forall|i: int| 0 <= i < s.len() implies #[trigger] node_views(s)[i] == node_view(s[i]) by {
            if i > 0 {
                assert(node_views(s)[i] == node_views(t)[i - 1]);
                assert(t[i - 1] == s[i]);
            }
        }
    }
}

/// The views of a sequence are the views of its elements, in order.
pub proof fn lemma_node_views_map(s: Seq<Node>)
    ensures
        node_views(s) == s.map_values(|n: Node| node_view(n)),
{
    lemma_node_views_index(s);
    assert(node_views(s) =~= s.map_values(|n: Node| node_view(n)));
}

impl Clone for Node {
    /// A copy with the same view (the same tree, node for node).
    fn clone(&self) -> (r: Self)
        ensures
            node_view(r) == node_view(*self),
        decreases *self,
    {
        match self {
            Node::Operator(o) => Node::Operator(
                OperationNode {
                    operation: o.operation.clone(),
                    arguments: clone_arguments(&o.arguments, Ghost(*self)),
                },
            ),
            Node::Function(f) => Node::Function(
                OperationNode {
                    operation: f.operation.clone(),
                    arguments: clone_arguments(&f.arguments, Ghost(*self)),
                },
            ),
            Node::Value(v) => Node::Value(v.clone()),
        }
    }
}

fn clone_arguments(args: &Vec<Node>, Ghost(parent): Ghost<Node>) -> (r: Vec<Node>)
    requires
        forall|i: int| 0 <= i < args@.len() ==> decreases_to!(parent => #[trigger] args@[i]),
    ensures
        node_views(r@) == node_views(args@),
    decreases parent, 0nat,
{
    let mut r: Vec<Node> = Vec::new();
    let mut k: usize = 0;
    while k < args.len()
        invariant
            0 <= k <= args@.len(),
            r@.len() == k,
            forall|i: int| 0 <= i < args@.len() ==> decreases_to!(parent => #[trigger] args@[i]),
            forall|i: int| 0 <= i < k ==> node_view(#[trigger] r@[i]) == node_view(args@[i]),
        decreases args@.len() - k,
    {
        assert(decreases_to!(parent => args@[k as int]));
        let n = args[k].clone();
        r.push(n);
        k = k + 1;
    }
    proof {
        lemma_node_views_map(r@);
        lemma_node_views_map(args@);
        assert(node_views(r@) =~= node_views(args@));
    }
    r
}

/// A copy of a list of strings.
pub(crate) fn clone_strings(v: &Vec<String>) -> (r: Vec<String>)
    ensures
        r@ == v@,
{
    let mut r: Vec<String> = Vec::new();
    let mut k: usize = 0;
    while k < v.len()
        invariant
            0 <= k <= v@.len(),
            r@ == v@.take(k as int),
        decreases v@.len() - k,
    {
        r.push(v[k].clone());
        proof {
            assert(r@ =~= v@.take(k + 1));
        }
        k = k + 1;
    }
    assert(v@.take(v@.len() as int) =~= v@);
    r
}

impl Clone for ExpressionTree {
    /// A copy with the same view.
    fn clone(&self) -> (r: Self)
        ensures
            r@ == self@,
            r.variables@ == self.variables@,
    {
        ExpressionTree { root: self.root.clone(), variables: clone_strings(&self.variables) }
    }
}

impl<T> OperationNode<T> {
    /// Moves the arguments out, leaving none.
    pub fn take_arguments(&mut self) -> (r: Vec<Node>)
        ensures
            r == old(self).arguments,
            final(self).arguments@.len() == 0,
            final(self).operation == old(self).operation,
    {
        let mut r: Vec<Node> = Vec::new();
        std::mem::swap(&mut r, &mut self.arguments);
        r
    }
}

} // verus!
