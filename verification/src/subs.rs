//! Replacing variables with values.
use vstd::prelude::*;
use crate::compute::{blocking_variable, law_blocking_variable_mentioned, mentions, mentions_any};
use crate::types::{
    clone_strings, lemma_node_views_map, node_view, node_views, string_views, ExpressionTree, Node, NodeView,
    OperationNode, TreeView, ValueNode,
};

verus! {

/// The value bound to `v`: the first pair whose name is `v`.
pub open spec fn lookup(pairs: Seq<(Seq<char>, u64)>, v: Seq<char>) -> Option<u64>
    decreases pairs.len(),
{
    if pairs.len() == 0 {
        None
    } else if pairs[0].0 == v {
        Some(pairs[0].1)
    } else {
        lookup(pairs.subrange(1, pairs.len() as int), v)
    }
}

/// `n` with each bound variable replaced by the constant bound to it.
pub open spec fn subs_view(n: NodeView, pairs: Seq<(Seq<char>, u64)>) -> NodeView
    decreases n, 1nat,
{
    match n {
        NodeView::Operator(o, args) => NodeView::Operator(o, subs_all(args, pairs)),
        NodeView::Function(f, args) => NodeView::Function(f, subs_all(args, pairs)),
        NodeView::Variable(v) => match lookup(pairs, v) {
            Some(c) => NodeView::Constant(c),
            None => NodeView::Variable(v),
        },
        NodeView::Constant(c) => NodeView::Constant(c),
    }
}

pub open spec fn subs_all(s: Seq<NodeView>, pairs: Seq<(Seq<char>, u64)>) -> Seq<NodeView>
    decreases s, 0nat,
{
    if s.len() == 0 {
        seq![]
    } else {
        seq![subs_view(s[0], pairs)] + subs_all(s.subrange(1, s.len() as int), pairs)
    }
}

pub proof fn lemma_subs_all_index(s: Seq<NodeView>, pairs: Seq<(Seq<char>, u64)>)
    ensures
        subs_all(s, pairs).len() == s.len(),
        forall|i: int| 0 <= i < s.len() ==> #[trigger] subs_all(s, pairs)[i] == subs_view(s[i], pairs),
    decreases s.len(),
{
    if s.len() > 0 {
        let t = s.subrange(1, s.len() as int);
        lemma_subs_all_index(t, pairs);
        assert forall|i: int| 0 <= i < s.len() implies #[trigger] subs_all(s, pairs)[i] == subs_view(
            s[i],
            pairs,
        ) by {
            if i > 0 {
                assert(t[i - 1] == s[i]);
            }
        }
    }
}

/// The pairs with names taken by their characters.
pub open spec fn pairs_view(pairs: Seq<(String, u64)>) -> Seq<(Seq<char>, u64)> {
    pairs.map_values(|p: (String, u64)| (p.0@, p.1))
}

/// Why a substitution was refused.
#[derive(Debug, Clone, PartialEq)]
pub struct SubsError {
    pub message: String,
}

impl SubsError {
    pub open spec fn message_spec(variable: Seq<char>) -> Seq<char> {
        "Expression tree does not contain \""@ + variable + "\" variable."@
    }

    pub fn new(variable: &str) -> (r: SubsError)
        ensures
            r.message@ == SubsError::message_spec(variable@),
    {
        let mut message = String::from_str("Expression tree does not contain \"");
        message.append(variable);
        message.append("\" variable.");
        SubsError { message }
    }
}

fn lookup_exec(pairs: &Vec<(String, u64)>, v: &String) -> (r: Option<u64>)
    ensures
        r == lookup(pairs_view(pairs@), v@),
{
    let ghost ps = pairs_view(pairs@);
    assert(ps.skip(0) =~= ps);
    let mut i: usize = 0;
    while i < pairs.len()
        invariant
            0 <= i <= pairs@.len(),
            ps == pairs_view(pairs@),
            lookup(ps, v@) == lookup(ps.skip(i as int), v@),
        decreases pairs@.len() - i,
    {
        proof {
            assert(ps.skip(i as int)[0] == ps[i as int]);
            assert(ps.skip(i as int).subrange(1, ps.skip(i as int).len() as int) =~= ps.skip(i + 1));
        }
        if pairs[i].0 == *v {
            return Some(pairs[i].1);
        }
        i = i + 1;
    }
    None
}

fn subs_node(node: &Node, pairs: &Vec<(String, u64)>) -> (r: Node)
    ensures
        node_view(r) == subs_view(node_view(*node), pairs_view(pairs@)),
    decreases *node,
{
    match node {
        Node::Operator(operator_node) => {
            let arguments = subs_arguments(&operator_node.arguments, pairs, Ghost(*node));
            Node::Operator(
                OperationNode { operation: operator_node.operation.clone(), arguments },
            )
        },
        Node::Function(function_node) => {
            let arguments = subs_arguments(&function_node.arguments, pairs, Ghost(*node));
            Node::Function(
                OperationNode { operation: function_node.operation.clone(), arguments },
            )
        },
        Node::Value(ValueNode::Constant(value)) => Node::Value(ValueNode::Constant(*value)),
        Node::Value(ValueNode::Variable(variable)) => match lookup_exec(pairs, variable) {
            Some(constant) => Node::Value(ValueNode::Constant(constant)),
            None => Node::Value(ValueNode::Variable(variable.clone())),
        },
    }
}

fn subs_arguments(args: &Vec<Node>, pairs: &Vec<(String, u64)>, Ghost(parent): Ghost<Node>) -> (r: Vec<Node>)
    requires
        forall|i: int| 0 <= i < args@.len() ==> decreases_to!(parent => #[trigger] args@[i]),
    ensures
        node_views(r@) == subs_all(node_views(args@), pairs_view(pairs@)),
    decreases parent, 0nat,
{
    let mut r: Vec<Node> = Vec::new();
    let mut k: usize = 0;
    proof {
        lemma_node_views_map(args@);
        lemma_subs_all_index(node_views(args@), pairs_view(pairs@));
    }
    while k < args.len()
        invariant
            0 <= k <= args@.len(),
            r@.len() == k,
            forall|i: int| 0 <= i < args@.len() ==> decreases_to!(parent => #[trigger] args@[i]),
            forall|i: int| 0 <= i < k ==> node_view(#[trigger] r@[i]) == subs_view(
                node_view(args@[i]),
                pairs_view(pairs@),
            ),
        decreases args@.len() - k,
    {
        assert(decreases_to!(parent => args@[k as int]));
        let n = subs_node(&args[k], pairs);
        r.push(n);
        k = k + 1;
    }
    proof {
        lemma_node_views_map(r@);
        lemma_node_views_map(args@);
        lemma_subs_all_index(node_views(args@), pairs_view(pairs@));
        assert(node_views(r@) =~= subs_all(node_views(args@), pairs_view(pairs@)));
    }
    r
}

} // verus!

verus! {

/// The first name bound by `pairs` that is not one of `vars`.
pub open spec fn first_unknown(pairs: Seq<(Seq<char>, u64)>, vars: Seq<Seq<char>>) -> Option<Seq<char>>
    decreases pairs.len(),
{
    if pairs.len() == 0 {
        None
    } else if !vars.contains(pairs[0].0) {
        Some(pairs[0].0)
    } else {
        first_unknown(pairs.subrange(1, pairs.len() as int), vars)
    }
}

/// The tree that substituting `pairs` into `t` yields: each bound variable
/// becomes its constant, and the bound variables leave the variable list.
pub open spec fn subs_tree_spec(t: TreeView, pairs: Seq<(Seq<char>, u64)>) -> TreeView {
    TreeView {
        root: subs_view(t.root, pairs),
        variables: t.variables.filter(|v: Seq<char>| lookup(pairs, v) is None),
    }
}

fn contains_string(vs: &Vec<String>, s: &String) -> (r: bool)
    ensures
        r == string_views(vs@).contains(s@),
{
    let ghost sv = string_views(vs@);
    let mut i: usize = 0;
    while i < vs.len()
        invariant
            0 <= i <= vs@.len(),
            sv == string_views(vs@),
            forall|k: int| 0 <= k < i ==> sv[k] != s@,
        decreases vs@.len() - i,
    {
        assert(sv[i as int] == vs@[i as int]@);
        if vs[i] == *s {
            assert(sv[i as int] == s@);
            return true;
        }
        i = i + 1;
    }
    false
}

impl ExpressionTree {
    /// Returns a new tree in which the variables bound by `variables` are
    /// replaced with their values (the first binding of a name counts);
    /// fails on the first bound name that is not a variable of the tree.
    pub fn subs(&self, variables: &Vec<(String, u64)>) -> (r: Result<ExpressionTree, SubsError>)
        ensures
            match first_unknown(pairs_view(variables@), self@.variables) {
                Some(v) => r matches Err(e) && e.message@ == SubsError::message_spec(v),
                None => r matches Ok(t) && t@ == subs_tree_spec(self@, pairs_view(variables@)),
            },
    {
        let ghost ps = pairs_view(variables@);
        let ghost vs = self@.variables;
        assert(ps.skip(0) =~= ps);
        let mut i: usize = 0;
        while i < variables.len()
            invariant
                0 <= i <= variables@.len(),
                ps == pairs_view(variables@),
                vs == self@.variables,
                first_unknown(ps, vs) == first_unknown(ps.skip(i as int), vs),
            decreases variables@.len() - i,
        {
            proof {
                assert(ps.skip(i as int)[0] == ps[i as int]);
                assert(ps.skip(i as int).subrange(1, ps.skip(i as int).len() as int) =~= ps.skip(i + 1));
            }
            if !contains_string(&self.variables, &variables[i].0) {
                return Err(SubsError::new(variables[i].0.as_str()));
            }
            i = i + 1;
        }
        let root = subs_node(&self.root, variables);
        let ghost pred = |v: Seq<char>| lookup(ps, v) is None;
        let mut kept: Vec<String> = Vec::new();
        let mut k: usize = 0;
        while k < self.variables.len()
            invariant
                0 <= k <= vs.len(),
                ps == pairs_view(variables@),
                vs == self@.variables,
                vs == string_views(self.variables@),
                pred == (|v: Seq<char>| lookup(ps, v) is None),
                string_views(kept@) == vs.take(k as int).filter(pred),
            decreases vs.len() - k,
        {
            proof {
                reveal_with_fuel(Seq::<_>::filter, 1);
                assert(vs.take(k + 1).drop_last() =~= vs.take(k as int));
                assert(vs[k as int] == self.variables@[k as int]@);
            }
            let ghost before = string_views(kept@);
            if lookup_exec(variables, &self.variables[k]).is_none() {
                kept.push(self.variables[k].clone());
                proof {
                    assert(string_views(kept@) =~= before.push(vs[k as int]));
                }
            }
            k = k + 1;
        }
        proof {
            assert(vs.take(vs.len() as int) =~= vs);
        }
        Ok(ExpressionTree { root, variables: kept })
    }
}

/// Substituting nothing changes nothing.
pub proof fn law_subs_nothing(t: TreeView)
    ensures
        subs_tree_spec(t, seq![]) == t,
{
    lemma_subs_view_nothing(t.root);
    let pred = |v: Seq<char>| lookup(seq![], v) is None;
    lemma_filter_all(t.variables, pred);
}

proof fn lemma_lookup_concat(p1: Seq<(Seq<char>, u64)>, p2: Seq<(Seq<char>, u64)>, v: Seq<char>)
    ensures
        lookup(p1 + p2, v) == match lookup(p1, v) {
            Some(c) => Some(c),
            None => lookup(p2, v),
        },
    decreases p1.len(),
{
    if p1.len() == 0 {
        assert(p1 + p2 =~= p2);
    } else {
        let rest = p1.subrange(1, p1.len() as int);
        lemma_lookup_concat(rest, p2, v);
        assert((p1 + p2).subrange(1, (p1 + p2).len() as int) =~= rest + p2);
        assert((p1 + p2)[0] == p1[0]);
    }
}

proof fn lemma_subs_view_twice(n: NodeView, p1: Seq<(Seq<char>, u64)>, p2: Seq<(Seq<char>, u64)>)
    ensures
        subs_view(subs_view(n, p1), p2) == subs_view(n, p1 + p2),
    decreases n, 1nat,
{
    match n {
        NodeView::Operator(_, args) => lemma_subs_all_twice(args, p1, p2),
        NodeView::Function(_, args) => lemma_subs_all_twice(args, p1, p2),
        NodeView::Variable(v) => lemma_lookup_concat(p1, p2, v),
        NodeView::Constant(_) => {},
    }
}

proof fn lemma_subs_all_twice(s: Seq<NodeView>, p1: Seq<(Seq<char>, u64)>, p2: Seq<(Seq<char>, u64)>)
    ensures
        subs_all(subs_all(s, p1), p2) == subs_all(s, p1 + p2),
    decreases s, 0nat,
{
    if s.len() > 0 {
        let rest = s.subrange(1, s.len() as int);
        lemma_subs_view_twice(s[0], p1, p2);
        lemma_subs_all_twice(rest, p1, p2);
        let once = subs_all(s, p1);
        assert(once[0] == subs_view(s[0], p1));
        assert(once.subrange(1, once.len() as int) =~= subs_all(rest, p1));
    } else {
        assert(subs_all(s, p1) =~= s);
    }
}

proof fn lemma_filter_twice(
    s: Seq<Seq<char>>,
    p1: Seq<(Seq<char>, u64)>,
    p2: Seq<(Seq<char>, u64)>,
)
    ensures
        s.filter(|v: Seq<char>| lookup(p1, v) is None).filter(|v: Seq<char>| lookup(p2, v) is None) == s.filter(
            |v: Seq<char>| lookup(p1 + p2, v) is None,
        ),
    decreases s.len(),
{
    reveal_with_fuel(Seq::<_>::filter, 1);
    let a = |v: Seq<char>| lookup(p1, v) is None;
    let b = |v: Seq<char>| lookup(p2, v) is None;
    let c = |v: Seq<char>| lookup(p1 + p2, v) is None;
    if s.len() > 0 {
        lemma_filter_twice(s.drop_last(), p1, p2);
        lemma_lookup_concat(p1, p2, s.last());
        let f1 = s.drop_last().filter(a);
        if a(s.last()) {
            assert(s.filter(a) == f1.push(s.last()));
            assert(f1.push(s.last()).drop_last() =~= f1);
            assert(f1.push(s.last()).last() == s.last());
        } else {
            assert(s.filter(a) == f1);
        }
    } else {
        assert(s.filter(a) =~= s);
        assert(s.filter(a).filter(b) =~= s);
        assert(s.filter(c) =~= s);
    }
}

/// Substituting `p1` and then `p2` is substituting `p1` followed by `p2`:
/// a name bound by both keeps its value from `p1`.
pub proof fn law_subs_twice(t: TreeView, p1: Seq<(Seq<char>, u64)>, p2: Seq<(Seq<char>, u64)>)
    ensures
        subs_tree_spec(subs_tree_spec(t, p1), p2) == subs_tree_spec(t, p1 + p2),
{
    lemma_subs_view_twice(t.root, p1, p2);
    lemma_filter_twice(t.variables, p1, p2);
}

proof fn lemma_filter_all(s: Seq<Seq<char>>, pred: spec_fn(Seq<char>) -> bool)
    requires
        forall|v: Seq<char>| #[trigger] pred(v),
    ensures
        s.filter(pred) == s,
    decreases s.len(),
{
    reveal_with_fuel(Seq::<_>::filter, 1);
    if s.len() > 0 {
        lemma_filter_all(s.drop_last(), pred);
        assert(pred(s.last()));
        assert(s.drop_last().push(s.last()) =~= s);
    } else {
        assert(s.filter(pred) =~= s);
    }
}

proof fn lemma_subs_view_nothing(n: NodeView)
    ensures
        subs_view(n, seq![]) == n,
    decreases n, 1nat,
{
    match n {
        NodeView::Operator(_, args) => lemma_subs_all_nothing(args),
        NodeView::Function(_, args) => lemma_subs_all_nothing(args),
        _ => {},
    }
}

proof fn lemma_subs_all_nothing(s: Seq<NodeView>)
    ensures
        subs_all(s, seq![]) == s,
    decreases s, 0nat,
{
    if s.len() > 0 {
        lemma_subs_view_nothing(s[0]);
        lemma_subs_all_nothing(s.subrange(1, s.len() as int));
        assert(seq![s[0]] + s.subrange(1, s.len() as int) =~= s);
    } else {
        assert(subs_all(s, seq![]) =~= s);
    }
}

/// After a substitution no bound variable is left: not in the tree, and
/// not in its list of variables.
pub proof fn law_subs_binds(t: TreeView, pairs: Seq<(Seq<char>, u64)>, v: Seq<char>)
    requires
        lookup(pairs, v) is Some,
    ensures
        !mentions(subs_tree_spec(t, pairs).root, v),
        !subs_tree_spec(t, pairs).variables.contains(v),
{
    lemma_subs_view_binds(t.root, pairs, v);
    let pred = |w: Seq<char>| lookup(pairs, w) is None;
    if subs_tree_spec(t, pairs).variables.contains(v) {
        let filtered = t.variables.filter(pred);
        let i = choose|i: int| 0 <= i < filtered.len() && filtered[i] == v;
        assert(pred(filtered[i]));
    }
}

proof fn lemma_subs_view_binds(n: NodeView, pairs: Seq<(Seq<char>, u64)>, v: Seq<char>)
    requires
        lookup(pairs, v) is Some,
    ensures
        !mentions(subs_view(n, pairs), v),
    decreases n, 1nat,
{
    match n {
        NodeView::Operator(_, args) => lemma_subs_all_binds(args, pairs, v),
        NodeView::Function(_, args) => lemma_subs_all_binds(args, pairs, v),
        _ => {},
    }
}

proof fn lemma_subs_all_binds(s: Seq<NodeView>, pairs: Seq<(Seq<char>, u64)>, v: Seq<char>)
    requires
        lookup(pairs, v) is Some,
    ensures
        !mentions_any(subs_all(s, pairs), v),
    decreases s, 0nat,
{
    if s.len() > 0 {
        let t = s.subrange(1, s.len() as int);
        lemma_subs_view_binds(s[0], pairs, v);
        lemma_subs_all_binds(t, pairs, v);
        let r = subs_all(s, pairs);
        assert(r[0] == subs_view(s[0], pairs));
        assert(r.subrange(1, r.len() as int) =~= subs_all(t, pairs));
    }
}

proof fn lemma_subs_view_adds_nothing(n: NodeView, pairs: Seq<(Seq<char>, u64)>, v: Seq<char>)
    ensures
        mentions(subs_view(n, pairs), v) ==> mentions(n, v),
    decreases n, 1nat,
{
    match n {
        NodeView::Operator(_, args) => lemma_subs_all_adds_nothing(args, pairs, v),
        NodeView::Function(_, args) => lemma_subs_all_adds_nothing(args, pairs, v),
        _ => {},
    }
}

proof fn lemma_subs_all_adds_nothing(s: Seq<NodeView>, pairs: Seq<(Seq<char>, u64)>, v: Seq<char>)
    ensures
        mentions_any(subs_all(s, pairs), v) ==> mentions_any(s, v),
    decreases s, 0nat,
{
    if s.len() > 0 {
        let t = s.subrange(1, s.len() as int);
        lemma_subs_view_adds_nothing(s[0], pairs, v);
        lemma_subs_all_adds_nothing(t, pairs, v);
        let r = subs_all(s, pairs);
        assert(r[0] == subs_view(s[0], pairs));
        assert(r.subrange(1, r.len() as int) =~= subs_all(t, pairs));
    }
}

/// A tree in which every variable it mentions is bound computes after the
/// substitution: no variable is left to stop it.
pub proof fn law_bound_tree_computes(t: TreeView, pairs: Seq<(Seq<char>, u64)>)
    requires
        forall|v: Seq<char>| #[trigger] mentions(t.root, v) ==> lookup(pairs, v) is Some,
    ensures
        blocking_variable(subs_tree_spec(t, pairs).root) is None,
{
    let r = subs_tree_spec(t, pairs).root;
    assert forall|v: Seq<char>| !mentions(r, v) by {
        lemma_subs_view_adds_nothing(t.root, pairs, v);
        if mentions(t.root, v) {
            lemma_subs_view_binds(t.root, pairs, v);
        }
    }
    law_blocking_variable_mentioned(r);
}

impl ExpressionTree {
    /// Makes the tree range over `variables` when these include every
    /// variable the tree lists, and says whether they did; otherwise the
    /// tree is left as it is.
    pub fn set_variables(&mut self, variables: &Vec<String>) -> (r: bool)
        ensures
            r == (forall|v: Seq<char>| #[trigger] old(self)@.variables.contains(v) ==> string_views(variables@).contains(v)),
            r ==> final(self).variables@ == variables@ && final(self).root == old(self).root,
            !r ==> *final(self) == *old(self),
    {
        let ghost tv = self@.variables;
        let mut k: usize = 0;
        while k < self.variables.len()
            invariant
                0 <= k <= tv.len(),
                tv == string_views(self.variables@),
                forall|j: int| 0 <= j < k ==> string_views(variables@).contains(#[trigger] tv[j]),
            decreases tv.len() - k,
        {
            if !contains_string(variables, &self.variables[k]) {
                proof {
                    assert(tv[k as int] == self.variables@[k as int]@);
                    assert(old(self)@.variables.contains(tv[k as int]));
                    assert(!string_views(variables@).contains(tv[k as int]));
                }
                return false;
            }
            proof {
                assert(tv[k as int] == self.variables@[k as int]@);
            }
            k = k + 1;
        }
        proof {
            assert forall|v: Seq<char>| #[trigger] tv.contains(v) implies string_views(variables@).contains(v) by {
                let j = choose|j: int| 0 <= j < tv.len() && tv[j] == v;
                assert(string_views(variables@).contains(tv[j]));
            }
        }
        self.variables = clone_strings(variables);
        true
    }
}

} // verus!
