//! Preparing an expression tree for output.
use vstd::prelude::*;
use crate::parser::operation_node_view;
use crate::settings::{convert_view_spec, lemma_convert_view, Converter, ConverterOperation, Settings};
use crate::types::{
    clone_strings, lemma_node_views_map, node_view, node_views, ExpressionTree, Node, NodeView,
    TreeView,
};

verus! {

/// `n` with every operation rewritten by the first applicable converter,
/// after its arguments have been rewritten. (A converter's condition looks
/// at constant arguments only, which rewriting leaves alone, so rewriting
/// the arguments before or after the conversion gives the same tree.)
pub open spec fn output_view(n: NodeView, cs: Seq<Converter>) -> NodeView
    decreases n, 1nat,
{
    match n {
        NodeView::Operator(o, args) => {
            let c = convert_view_spec(cs, ConverterOperation::Operator(o), output_all(args, cs));
            operation_node_view(c.0, c.1)
        },
        NodeView::Function(f, args) => {
            let c = convert_view_spec(cs, ConverterOperation::Function(f), output_all(args, cs));
            operation_node_view(c.0, c.1)
        },
        _ => n,
    }
}

pub open spec fn output_all(s: Seq<NodeView>, cs: Seq<Converter>) -> Seq<NodeView>
    decreases s, 0nat,
{
    if s.len() == 0 {
        seq![]
    } else {
        seq![output_view(s[0], cs)] + output_all(s.subrange(1, s.len() as int), cs)
    }
}

pub proof fn lemma_output_all_index(s: Seq<NodeView>, cs: Seq<Converter>)
    ensures
        output_all(s, cs).len() == s.len(),
        forall|i: int| 0 <= i < s.len() ==> #[trigger] output_all(s, cs)[i] == output_view(s[i], cs),
    decreases s.len(),
{
    if s.len() > 0 {
        let t = s.subrange(1, s.len() as int);
        lemma_output_all_index(t, cs);
        assert forall|i: int| 0 <= i < s.len() implies #[trigger] output_all(s, cs)[i] == output_view(
            s[i],
            cs,
        ) by {
            if i > 0 {
                assert(t[i - 1] == s[i]);
            }
        }
    }
}

fn output_arguments(args: &Vec<Node>, settings: &Settings, Ghost(parent): Ghost<Node>) -> (r: Vec<Node>)
    requires
        forall|i: int| 0 <= i < args@.len() ==> decreases_to!(parent => #[trigger] args@[i]),
    ensures
        node_views(r@) == output_all(node_views(args@), settings.converters@),
    decreases parent, 0nat,
{
    let mut r: Vec<Node> = Vec::new();
    let mut k: usize = 0;
    while k < args.len()
        invariant
            0 <= k <= args@.len(),
            r@.len() == k,
            forall|i: int| 0 <= i < args@.len() ==> decreases_to!(parent => #[trigger] args@[i]),
            forall|i: int| 0 <= i < k ==> node_view(#[trigger] r@[i]) == output_view(
                node_view(args@[i]),
                settings.converters@,
            ),
        decreases args@.len() - k,
    {
        assert(decreases_to!(parent => args@[k as int]));
        let n = create_output_node(&args[k], settings);
        r.push(n);
        k = k + 1;
    }
    proof {
        lemma_node_views_map(r@);
        lemma_node_views_map(args@);
        lemma_output_all_index(node_views(args@), settings.converters@);
        assert(node_views(r@) =~= output_all(node_views(args@), settings.converters@));
    }
    r
}

fn create_output_node(node: &Node, settings: &Settings) -> (r: Node)
    ensures
        node_view(r) == output_view(node_view(*node), settings.converters@),
    decreases *node, 1nat,
{
    match node {
        Node::Operator(operator_node) => {
            let arguments = output_arguments(&operator_node.arguments, settings, Ghost(*node));
            let operation = ConverterOperation::Operator(operator_node.operation.clone());
            proof {
                lemma_convert_view(settings.converters@, operation, arguments@);
            }
            let output_data = settings.convert(operation, arguments);
            proof {
                lemma_node_views_map(output_data.arguments@);
            }
            output_data.to_node()
        },
        Node::Function(function_node) => {
            let arguments = output_arguments(&function_node.arguments, settings, Ghost(*node));
            let operation = ConverterOperation::Function(function_node.operation.clone());
            proof {
                lemma_convert_view(settings.converters@, operation, arguments@);
            }
            let output_data = settings.convert(operation, arguments);
            proof {
                lemma_node_views_map(output_data.arguments@);
            }
            output_data.to_node()
        },
        Node::Value(value_node) => Node::Value(value_node.clone()),
    }
}

impl ExpressionTree {
    /// Returns a new tree in which internal operations are replaced with the
    /// output ones, by the converters of `settings`.
    pub fn create_output(&self, settings: &Settings) -> (r: ExpressionTree)
        ensures
            r@ == (TreeView { root: output_view(self@.root, settings.converters@), variables: self@.variables }),
    {
        let variables = clone_strings(&self.variables);
        ExpressionTree { root: create_output_node(&self.root, settings), variables }
    }
}

} // verus!
