//! Pre-order traversal of expression trees.
use vstd::prelude::*;
use crate::types::{arguments_of, preorder, preorder_all, ExpressionTree, Node};

verus! {

/// The three kinds of nodes.
#[derive(Debug, Clone, Copy, PartialEq, Eq, Structural)]
pub enum NodeKind {
    Operator,
    Function,
    Value,
}

pub open spec fn kind_of(n: Node) -> NodeKind {
    match n {
        Node::Operator(_) => NodeKind::Operator,
        Node::Function(_) => NodeKind::Function,
        Node::Value(_) => NodeKind::Value,
    }
}

/// The number of nodes of a tree.
pub open spec fn size(n: Node) -> nat {
    preorder(n).len()
}

/// `r` lists, in increasing order, exactly the positions of `s` that hold a
/// node of kind `k`.
pub open spec fn are_kind_indices(r: Seq<usize>, s: Seq<Node>, k: NodeKind) -> bool {
    &&& forall|a: int, b: int| 0 <= a < b < r.len() ==> r[a] < r[b]
    &&& forall|a: int| 0 <= a < r.len() ==> #[trigger] r[a] < s.len() && kind_of(s[r[a] as int]) == k
    &&& forall|i: int| 0 <= i < s.len() && kind_of(#[trigger] s[i]) == k ==> r.contains(i as usize)
}

pub proof fn lemma_preorder_first(n: Node)
    ensures
        preorder(n).len() >= 1,
        preorder(n)[0] == n,
        preorder(n) == seq![n] + preorder_all(arguments_of(n)),
{
    reveal_with_fuel(preorder_all, 1);
}

pub proof fn lemma_preorder_all_push(s: Seq<Node>, x: Node)
    ensures
        preorder_all(s.push(x)) == preorder_all(s) + preorder(x),
    decreases s.len(),
{
    if s.len() == 0 {
        assert(s.push(x).subrange(1, 1) =~= Seq::<Node>::empty());
        assert(preorder_all(Seq::<Node>::empty()) =~= Seq::<Node>::empty());
        assert(preorder(x) + Seq::<Node>::empty() =~= preorder(x));
    } else {
        let t = s.subrange(1, s.len() as int);
        lemma_preorder_all_push(t, x);
        assert(s.push(x).subrange(1, s.push(x).len() as int) =~= t.push(x));
        assert(s.push(x)[0] == s[0]);
        assert(preorder(s[0]) + (preorder_all(t) + preorder(x)) =~= (preorder(s[0])
            + preorder_all(t)) + preorder(x));
    }
}

/// Splitting a sequence of trees splits its pre-order.
pub proof fn lemma_preorder_all_take(s: Seq<Node>, k: int)
    requires
        0 <= k < s.len(),
    ensures
        preorder_all(s.take(k + 1)) == preorder_all(s.take(k)) + preorder(s[k]),
{
    assert(s.take(k + 1) =~= s.take(k).push(s[k]));
    lemma_preorder_all_push(s.take(k), s[k]);
}

/// The pre-order of a sequence of trees is a prefix-closed concatenation:
/// the first trees come first.
pub proof fn lemma_preorder_all_prefix(s: Seq<Node>, k: int)
    requires
        0 <= k <= s.len(),
    ensures
        preorder_all(s.take(k)).len() <= preorder_all(s).len(),
        preorder_all(s) == preorder_all(s.take(k)) + preorder_all(s.skip(k)),
    decreases s.len() - k,
{
    if k == s.len() {
        assert(s.take(k) =~= s);
        assert(s.skip(k) =~= Seq::<Node>::empty());
        assert(preorder_all(s) + Seq::<Node>::empty() =~= preorder_all(s));
    } else {
        lemma_preorder_all_prefix(s, k + 1);
        lemma_preorder_all_take(s, k);
        let t = s.skip(k);
        assert(t[0] == s[k]);
        assert(t.subrange(1, t.len() as int) =~= s.skip(k + 1));
        assert(preorder_all(t) == preorder(s[k]) + preorder_all(s.skip(k + 1)));
        assert(preorder_all(s.take(k)) + (preorder(s[k]) + preorder_all(s.skip(k + 1)))
            =~= (preorder_all(s.take(k)) + preorder(s[k])) + preorder_all(s.skip(k + 1)));
    }
}

/// Appends the kinds of the nodes of `n`, in pre-order, to `out`.
fn collect_kinds(n: &Node, out: &mut Vec<NodeKind>)
    ensures
        final(out)@ == old(out)@ + preorder(*n).map_values(|m: Node| kind_of(m)),
    decreases *n,
{
    proof {
        lemma_preorder_first(*n);
    }
    let args: &Vec<Node> = match n {
        Node::Operator(o) => {
            out.push(NodeKind::Operator);
            &o.arguments
        },
        Node::Function(f) => {
            out.push(NodeKind::Function);
            &f.arguments
        },
        Node::Value(_) => {
            out.push(NodeKind::Value);
            proof {
                assert(preorder(*n).map_values(|m: Node| kind_of(m)) =~= seq![NodeKind::Value]);
            }
            return;
        },
    };
    assert(args@ == arguments_of(*n));
    let ghost start = old(out)@.push(kind_of(*n));
    let mut k: usize = 0;
    while k < args.len()
        invariant
            0 <= k <= args.len(),
            args@ == arguments_of(*n),
            out@ == start + preorder_all(args@.take(k as int)).map_values(|m: Node| kind_of(m)),
        decreases args.len() - k,
    {
        proof {
            lemma_preorder_all_take(args@, k as int);
            assert(decreases_to!(*n => args@[k as int]));
        }
        collect_kinds(&args[k], out);
        proof {
            assert(preorder_all(args@.take(k + 1)).map_values(|m: Node| kind_of(m)) =~=
                preorder_all(args@.take(k as int)).map_values(|m: Node| kind_of(m))
                + preorder(args@[k as int]).map_values(|m: Node| kind_of(m)));
        }
        k = k + 1;
    }
    proof {
        assert(args@.take(args@.len() as int) =~= args@);
        assert(preorder(*n).map_values(|m: Node| kind_of(m)) =~= seq![kind_of(*n)]
            + preorder_all(args@).map_values(|m: Node| kind_of(m)));
    }
}

} // verus!

verus! {

/// Splitting a sequence of trees at one of them.
pub proof fn lemma_preorder_all_split(s: Seq<Node>, k: int)
    requires
        0 <= k < s.len(),
    ensures
        preorder_all(s) == preorder_all(s.take(k)) + preorder(s[k]) + preorder_all(s.skip(k + 1)),
{
    lemma_preorder_all_prefix(s, k + 1);
    lemma_preorder_all_take(s, k);
}

/// The number of nodes of `n`.
fn count_node(n: &Node) -> (r: usize)
    ensures
        r == size(*n),
{
    let mut kinds: Vec<NodeKind> = Vec::new();
    collect_kinds(n, &mut kinds);
    proof {
        assert(kinds@ =~= preorder(*n).map_values(|m: Node| kind_of(m)));
    }
    kinds.len()
}

/// The arguments of an operation node, by reference; `None` for a value.
fn arguments_ref(n: &Node) -> (r: Option<&Vec<Node>>)
    ensures
        r matches Some(a) ==> a@ == arguments_of(*n),
        r is None <==> n is Value,
{
    match n {
        Node::Operator(o) => Some(&o.arguments),
        Node::Function(f) => Some(&f.arguments),
        Node::Value(_) => None,
    }
}

/// The node at `index` in the pre-order of `n`.
fn node_at(n: &Node, index: usize) -> (r: &Node)
    requires
        index < size(*n),
    ensures
        *r == preorder(*n)[index as int],
    decreases *n,
{
    proof {
        lemma_preorder_first(*n);
    }
    if index == 0 {
        return n;
    }
    let args = match arguments_ref(n) {
        Some(a) => a,
        None => {
            proof {
                assert(arguments_of(*n) =~= Seq::<Node>::empty());
                assert(preorder_all(Seq::<Node>::empty()) =~= Seq::<Node>::empty());
            }
            return n;
        },
    };
    let mut offset: usize = 1;
    let mut k: usize = 0;
    while k < args.len()
        invariant
            0 <= k <= args.len(),
            args@ == arguments_of(*n),
            preorder(*n) == seq![*n] + preorder_all(args@),
            offset == 1 + preorder_all(args@.take(k as int)).len(),
            offset <= index < size(*n),
        decreases args.len() - k,
    {
        proof {
            lemma_preorder_all_take(args@, k as int);
            lemma_preorder_all_prefix(args@, k as int + 1);
            assert(decreases_to!(*n => args@[k as int]));
        }
        let sz = count_node(&args[k]);
        if index - offset < sz {
            let r = node_at(&args[k], index - offset);
            proof {
                lemma_preorder_all_split(args@, k as int);
                let pre = preorder_all(args@.take(k as int));
                assert(preorder(*n)[index as int] == preorder_all(args@)[index - 1]);
                assert(preorder_all(args@)[index - 1] == (pre + preorder(args@[k as int]))[index - 1]);
            }
            return r;
        }
        offset = offset + sz;
        k = k + 1;
    }
    proof {
        assert(args@.take(args@.len() as int) =~= args@);
    }
    n
}

} // verus!

verus! {

/// `new` is `old` with the subtree at pre-order position `i` replaced by `m`.
pub open spec fn replaced_at(old: Node, i: int, m: Node, new: Node) -> bool
    decreases old, 1nat,
{
    if i == 0 {
        new == m
    } else {
        match old {
            Node::Operator(o) => match new {
                Node::Operator(p) => p.operation == o.operation && replaced_among(
                    o.arguments@,
                    i - 1,
                    m,
                    p.arguments@,
                ),
                _ => false,
            },
            Node::Function(o) => match new {
                Node::Function(p) => p.operation == o.operation && replaced_among(
                    o.arguments@,
                    i - 1,
                    m,
                    p.arguments@,
                ),
                _ => false,
            },
            Node::Value(_) => false,
        }
    }
}

/// `t` is `s` with the node at position `i` of the joint pre-order of `s`
/// replaced by `m`.
pub open spec fn replaced_among(s: Seq<Node>, i: int, m: Node, t: Seq<Node>) -> bool
    decreases s, 0nat,
{
    if s.len() == 0 {
        false
    } else if i < preorder(s[0]).len() {
        &&& t.len() == s.len()
        &&& replaced_at(s[0], i, m, t[0])
        &&& t.subrange(1, t.len() as int) == s.subrange(1, s.len() as int)
    } else {
        &&& t.len() == s.len()
        &&& t[0] == s[0]
        &&& replaced_among(
            s.subrange(1, s.len() as int),
            i - preorder(s[0]).len(),
            m,
            t.subrange(1, t.len() as int),
        )
    }
}

proof fn lemma_replaced_among_update(s: Seq<Node>, k: int, i: int, m: Node, x: Node)
    requires
        0 <= k < s.len(),
        preorder_all(s.take(k)).len() <= i < preorder_all(s.take(k)).len() + preorder(s[k]).len(),
        replaced_at(s[k], i - preorder_all(s.take(k)).len(), m, x),
    ensures
        replaced_among(s, i, m, s.update(k, x)),
    decreases k,
{
    let t = s.update(k, x);
    if k == 0 {
        assert(s.take(0) =~= Seq::<Node>::empty());
        assert(preorder_all(Seq::<Node>::empty()) =~= Seq::<Node>::empty());
        assert(t.subrange(1, t.len() as int) =~= s.subrange(1, s.len() as int));
    } else {
        let s1 = s.subrange(1, s.len() as int);
        lemma_preorder_all_take(s, 0);
        assert(s.take(0) =~= Seq::<Node>::empty());
        assert(preorder_all(Seq::<Node>::empty()) =~= Seq::<Node>::empty());
        assert(s.take(1) =~= seq![s[0]]);
        // the pre-order of s.take(k) starts with the pre-order of s[0]
        assert(s.take(k) =~= seq![s[0]] + s1.take(k - 1));
        assert(seq![s[0]] + s1.take(k - 1) == seq![s[0]].add(s1.take(k - 1)));
        lemma_preorder_all_cons(s[0], s1.take(k - 1));
        assert(s1[k - 1] == s[k]);
        lemma_replaced_among_update(s1, k - 1, i - preorder(s[0]).len(), m, x);
        assert(t.subrange(1, t.len() as int) =~= s1.update(k - 1, x));
    }
}

proof fn lemma_preorder_all_cons(x: Node, s: Seq<Node>)
    ensures
        preorder_all(seq![x] + s) == preorder(x) + preorder_all(s),
{
    let u = seq![x] + s;
    assert(u[0] == x);
    assert(u.subrange(1, u.len() as int) =~= s);
}

/// `new` is `old` with its arguments replaced by `args`.
pub open spec fn with_arguments(old: Node, new: Node, args: Vec<Node>) -> bool {
    match old {
        Node::Operator(o) => match new {
            Node::Operator(p) => p.operation == o.operation && p.arguments == args,
            _ => false,
        },
        Node::Function(o) => match new {
            Node::Function(p) => p.operation == o.operation && p.arguments == args,
            _ => false,
        },
        Node::Value(_) => false,
    }
}

} // verus!

verus! {

/// The position among the arguments of `n` of the argument whose subtree
/// holds pre-order position `index` of `n` (for `0 < index < size(n)`),
/// together with the pre-order position at which that argument starts.
fn locate_argument(n: &Node, index: usize) -> (r: (usize, usize))
    requires
        0 < index < size(*n),
    ensures
        r.0 < arguments_of(*n).len(),
        r.1 + 1 == preorder_all(arguments_of(*n).take(r.0 as int)).len() + 1,
        r.1 + 1 <= index < r.1 + 1 + size(arguments_of(*n)[r.0 as int]),
{
    proof {
        lemma_preorder_first(*n);
    }
    let args = match arguments_ref(n) {
        Some(a) => a,
        None => {
            proof {
                assert(arguments_of(*n) =~= Seq::<Node>::empty());
                assert(preorder_all(Seq::<Node>::empty()) =~= Seq::<Node>::empty());
            }
            return (0, 0);
        },
    };
    let ghost s = args@;
    let rest = index - 1;
    let mut offset: usize = 0;
    let mut k: usize = 0;
    while k < args.len()
        invariant
            0 <= k <= args.len(),
            args@ == s,
            s == arguments_of(*n),
            preorder(*n) == seq![*n] + preorder_all(s),
            rest + 1 == index,
            offset == preorder_all(s.take(k as int)).len(),
            offset <= rest < preorder_all(s).len(),
        decreases args.len() - k,
    {
        proof {
            lemma_preorder_all_take(s, k as int);
            lemma_preorder_all_prefix(s, k as int + 1);
        }
        let sz = count_node(&args[k]);
        if rest - offset < sz {
            return (k, offset);
        }
        offset = offset + sz;
        k = k + 1;
    }
    proof {
        assert(s.take(s.len() as int) =~= s);
    }
    (0, 0)
}

/// A mutable reference to the subtree of `n` at pre-order position `index`;
/// whatever is written through it takes that place in `n`.
fn node_at_mut(n: &mut Node, index: usize) -> (r: &mut Node)
    requires
        index < size(*old(n)),
    ensures
        *r == preorder(*old(n))[index as int],
        replaced_at(*old(n), index as int, *final(r), *final(n)),
    decreases *old(n),
{
    proof {
        lemma_preorder_first(*old(n));
    }
    if index == 0 {
        return n;
    }
    let ghost old_n = *old(n);
    let ghost fin_n = *final(n);
    let (k, offset) = locate_argument(n, index);
    let ghost s = arguments_of(old_n);
    let args: &mut Vec<Node> = match n {
        Node::Operator(o) => &mut o.arguments,
        Node::Function(f) => &mut f.arguments,
        Node::Value(_) => {
            proof {
                assert(arguments_of(old_n) =~= Seq::<Node>::empty());
            }
            unreached()
        },
    };
    assert(args@ == s);
    let ghost fin_args = *final(args);
    assert(with_arguments(old_n, fin_n, fin_args));
    proof {
        lemma_preorder_all_split(s, k as int);
    }
    let child = &mut args[k];
    let ghost fin_child = *final(child);
    assert(fin_args@ == s.update(k as int, fin_child));
    assert(*child == s[k as int]);
    assert(decreases_to!(old_n => *child));
    let r = node_at_mut(child, index - 1 - offset);
    let ghost fin_r = *final(r);
    proof {
        let rest = index - 1;
        lemma_replaced_among_update(s, k as int, rest, fin_r, fin_child);
        let pre = preorder_all(s.take(k as int));
        assert(preorder_all(s) == pre + preorder(s[k as int]) + preorder_all(s.skip(k + 1)));
        assert(preorder_all(s)[rest] == preorder(s[k as int])[rest - offset]);
    }
    r
}

} // verus!

verus! {

/// Collects, in increasing order, the positions of the entries of `kinds`
/// equal to `k`.
fn indices_of_kind(kinds: &Vec<NodeKind>, k: NodeKind, Ghost(nodes): Ghost<Seq<Node>>) -> (r: Vec<usize>)
    requires
        kinds@ == nodes.map_values(|m: Node| kind_of(m)),
    ensures
        are_kind_indices(r@, nodes, k),
{
    let mut r: Vec<usize> = Vec::new();
    let mut i: usize = 0;
    while i < kinds.len()
        invariant
            0 <= i <= kinds.len(),
            kinds@ == nodes.map_values(|m: Node| kind_of(m)),
            forall|a: int, b: int| 0 <= a < b < r@.len() ==> r@[a] < r@[b],
            forall|a: int| 0 <= a < r@.len() ==> #[trigger] r@[a] < i,
            forall|a: int| 0 <= a < r@.len() ==> kind_of(#[trigger] nodes[r@[a] as int]) == k,
            forall|j: int| 0 <= j < i && kind_of(#[trigger] nodes[j]) == k ==> r@.contains(j as usize),
        decreases kinds.len() - i,
    {
        assert(kinds@[i as int] == kind_of(nodes[i as int]));
        let ghost old_r = r@;
        if kinds[i] == k {
            r.push(i);
            assert(r@[r@.len() - 1] == i);
        }
        proof {
            assert forall|j: int| 0 <= j < i + 1 && kind_of(#[trigger] nodes[j]) == k implies r@.contains(
                j as usize,
            ) by {
                if j < i {
                    assert(old_r.contains(j as usize));
                    let w = choose|w: int| 0 <= w < old_r.len() && old_r[w] == j as usize;
                    assert(r@[w] == old_r[w]);
                } else {
                    assert(r@[r@.len() - 1] == i);
                }
            }
        }
        i = i + 1;
    }
    r
}

/// `r` is where `predicate` first accepted a node of `nodes`, asked about
/// each in turn: every earlier node was refused; `None` when all were.
pub open spec fn first_accepted<F: Fn(&Node) -> bool>(predicate: F, nodes: Seq<Node>, r: Option<usize>) -> bool {
    match r {
        Some(i) => i < nodes.len() && predicate.ensures((&nodes[i as int],), true) && forall|j: int|
            0 <= j < i ==> predicate.ensures((&nodes[j],), false),
        None => forall|j: int| 0 <= j < nodes.len() ==> predicate.ensures((&nodes[j],), false),
    }
}

impl Node {
    /// Calls `callback` on each node of the subtree in pre-order.
    pub fn walk_pre_order<F: FnMut(&Node)>(&self, callback: &mut F)
        requires
            forall|c: F, n: &Node| #[trigger] c.requires((n,)),
        ensures
            forall|i: int| 0 <= i < preorder(*self).len() ==> (*old(callback)).ensures((&preorder(*self)[i],), ()),
    {
        let count = count_node(self);
        let mut k: usize = 0;
        while k < count
            invariant
                k <= count,
                count == size(*self),
                forall|c: F, n: &Node| #[trigger] c.requires((n,)),
                *callback == *old(callback),
                forall|i: int| 0 <= i < k ==> (*old(callback)).ensures((&preorder(*self)[i],), ()),
            decreases count - k,
        {
            let node = node_at(self, k);
            callback(node);
            k = k + 1;
        }
    }

    fn find_node_index<F: Fn(&Node) -> bool>(&self, predicate: &F) -> (r: Option<usize>)
        requires
            forall|n: &Node| #[trigger] predicate.requires((n,)),
        ensures
            first_accepted(*predicate, preorder(*self), r),
    {
        let count = count_node(self);
        let mut k: usize = 0;
        while k < count
            invariant
                k <= count,
                count == size(*self),
                forall|n: &Node| #[trigger] predicate.requires((n,)),
                forall|j: int| 0 <= j < k ==> predicate.ensures((&preorder(*self)[j],), false),
            decreases count - k,
        {
            let node = node_at(self, k);
            if predicate(node) {
                return Some(k);
            }
            k = k + 1;
        }
        None
    }

    /// The first node of the subtree in pre-order that `predicate` accepts,
    /// the predicate being asked about each node in turn; `None` when it
    /// accepts none.
    pub fn get_node<F: Fn(&Node) -> bool>(&self, predicate: &F) -> (r: Option<&Node>)
        requires
            forall|n: &Node| #[trigger] predicate.requires((n,)),
        ensures
            r is None ==> first_accepted(*predicate, preorder(*self), None),
            r matches Some(n) ==> exists|i: usize|
                #[trigger] first_accepted(*predicate, preorder(*self), Some(i)) && *n == preorder(*self)[i as int],
    {
        match self.find_node_index(predicate) {
            Some(i) => Some(node_at(self, i)),
            None => None,
        }
    }

    /// The first node of the subtree in pre-order that `predicate` accepts,
    /// to be replaced through the returned reference; `None` when it accepts
    /// none.
    pub fn get_node_mut<F: Fn(&Node) -> bool>(&mut self, predicate: &F) -> (r: Option<&mut Node>)
        requires
            forall|n: &Node| #[trigger] predicate.requires((n,)),
        ensures
            r is None ==> first_accepted(*predicate, preorder(*old(self)), None) && *final(self) == *old(self),
            r matches Some(n) ==> exists|i: usize|
                #[trigger] first_accepted(*predicate, preorder(*old(self)), Some(i)) && *n == preorder(
                    *old(self),
                )[i as int] && replaced_at(*old(self), i as int, *final(n), *final(self)),
    {
        match self.find_node_index(predicate) {
            Some(i) => Some(node_at_mut(self, i)),
            None => None,
        }
    }
}

impl ExpressionTree {
    /// The nodes of the tree in pre-order.
    pub open spec fn nodes(&self) -> Seq<Node> {
        preorder(self.root)
    }

    fn kinds(&self) -> (r: Vec<NodeKind>)
        ensures
            r@ == self.nodes().map_values(|m: Node| kind_of(m)),
    {
        let mut kinds: Vec<NodeKind> = Vec::new();
        collect_kinds(&self.root, &mut kinds);
        proof {
            assert(kinds@ =~= self.nodes().map_values(|m: Node| kind_of(m)));
        }
        kinds
    }

    /// Returns the number of nodes.
    pub fn count_nodes(&self) -> (r: usize)
        ensures
            r == self.nodes().len(),
    {
        count_node(&self.root)
    }

    /// Returns the operator node indices in pre-order.
    pub fn get_operator_node_indices(&self) -> (r: Vec<usize>)
        ensures
            are_kind_indices(r@, self.nodes(), NodeKind::Operator),
    {
        let kinds = self.kinds();
        indices_of_kind(&kinds, NodeKind::Operator, Ghost(self.nodes()))
    }

    /// Returns the function node indices in pre-order.
    pub fn get_function_node_indices(&self) -> (r: Vec<usize>)
        ensures
            are_kind_indices(r@, self.nodes(), NodeKind::Function),
    {
        let kinds = self.kinds();
        indices_of_kind(&kinds, NodeKind::Function, Ghost(self.nodes()))
    }

    /// Returns the value node indices in pre-order.
    pub fn get_value_node_indices(&self) -> (r: Vec<usize>)
        ensures
            are_kind_indices(r@, self.nodes(), NodeKind::Value),
    {
        let kinds = self.kinds();
        indices_of_kind(&kinds, NodeKind::Value, Ghost(self.nodes()))
    }

    /// Returns the node at `index` in pre-order.
    pub fn get_node_at(&self, index: usize) -> (r: &Node)
        requires
            index < self.nodes().len(),
        ensures
            *r == self.nodes()[index as int],
    {
        node_at(&self.root, index)
    }

    fn find_node_index<F: Fn(&Node) -> bool>(&self, predicate: &F) -> (r: Option<usize>)
        requires
            forall|n: &Node| #[trigger] predicate.requires((n,)),
        ensures
            first_accepted(*predicate, self.nodes(), r),
    {
        let count = self.count_nodes();
        let mut k: usize = 0;
        while k < count
            invariant
                k <= count,
                count == self.nodes().len(),
                forall|n: &Node| #[trigger] predicate.requires((n,)),
                forall|j: int| 0 <= j < k ==> predicate.ensures((&self.nodes()[j],), false),
            decreases count - k,
        {
            let node = self.get_node_at(k);
            if predicate(node) {
                return Some(k);
            }
            k = k + 1;
        }
        None
    }

    /// Calls `callback` on each node of the tree in pre-order.
    pub fn walk_pre_order<F: FnMut(&Node)>(&self, callback: &mut F)
        requires
            forall|c: F, n: &Node| #[trigger] c.requires((n,)),
        ensures
            forall|i: int| 0 <= i < self.nodes().len() ==> (*old(callback)).ensures((&self.nodes()[i],), ()),
    {
        self.root.walk_pre_order(callback)
    }

    /// The first node in pre-order that `predicate` accepts, the predicate
    /// being asked about each node in turn; `None` when it accepts none.
    pub fn get_node<F: Fn(&Node) -> bool>(&self, predicate: &F) -> (r: Option<&Node>)
        requires
            forall|n: &Node| #[trigger] predicate.requires((n,)),
        ensures
            r is None ==> first_accepted(*predicate, self.nodes(), None),
            r matches Some(n) ==> exists|i: usize|
                #[trigger] first_accepted(*predicate, self.nodes(), Some(i)) && *n == self.nodes()[i as int],
    {
        let r = self.root.get_node(predicate);
        proof {
            if r is Some {
                let n = r->0;
                let i = choose|i: usize|
                    #[trigger] first_accepted(*predicate, preorder(self.root), Some(i)) && *n == preorder(self.root)[i as int];
                assert(first_accepted(*predicate, self.nodes(), Some(i)));
            }
        }
        r
    }

    /// The first node in pre-order that `predicate` accepts, to be replaced
    /// through the returned reference; `None` when it accepts none.
    pub fn get_node_mut<F: Fn(&Node) -> bool>(&mut self, predicate: &F) -> (r: Option<&mut Node>)
        requires
            forall|n: &Node| #[trigger] predicate.requires((n,)),
        ensures
            r is None ==> first_accepted(*predicate, old(self).nodes(), None) && *final(self) == *old(self),
            r matches Some(n) ==> exists|i: usize|
                #[trigger] first_accepted(*predicate, old(self).nodes(), Some(i)) && *n == old(self).nodes()[i as int]
                    && replaced_at(old(self).root, i as int, *final(n), final(self).root),
            final(self).variables == old(self).variables,
    {
        let ghost before = *self;
        let ghost after = *final(self);
        let r = self.root.get_node_mut(predicate);
        proof {
            if r is Some {
                let n = r->0;
                let i = choose|i: usize|
                    #[trigger] first_accepted(*predicate, preorder(before.root), Some(i)) && *n == preorder(before.root)[i as int]
                        && replaced_at(before.root, i as int, *final(n), after.root);
                assert(first_accepted(*predicate, before.nodes(), Some(i)));
            }
        }
        r
    }

    /// Returns a mutable reference to the node at `index` in pre-order; what
    /// is written through it replaces that subtree.
    pub fn get_node_at_mut(&mut self, index: usize) -> (r: &mut Node)
        requires
            index < old(self).nodes().len(),
        ensures
            *r == old(self).nodes()[index as int],
            replaced_at(old(self).root, index as int, *final(r), final(self).root),
            final(self).variables == old(self).variables,
    {
        node_at_mut(&mut self.root, index)
    }
}

} // verus!

verus! {

/// Reading back a replaced position gives the new subtree, and the tree
/// grows by the size of the new subtree less the size of the old one.
pub proof fn law_replace_then_read(old: Node, i: int, m: Node, new: Node)
    requires
        0 <= i < size(old),
        replaced_at(old, i, m, new),
    ensures
        i < size(new),
        preorder(new)[i] == m,
        size(new) + size(preorder(old)[i]) == size(old) + size(m),
    decreases old, 1nat,
{
    lemma_preorder_first(old);
    lemma_preorder_first(new);
    lemma_preorder_first(m);
    if i != 0 {
        let s = arguments_of(old);
        let t = arguments_of(new);
        lemma_replaced_among_read(s, i - 1, m, t);
    }
}

proof fn lemma_replaced_among_read(s: Seq<Node>, i: int, m: Node, t: Seq<Node>)
    requires
        0 <= i < preorder_all(s).len(),
        replaced_among(s, i, m, t),
    ensures
        i < preorder_all(t).len(),
        preorder_all(t)[i] == m,
        preorder_all(t).len() + size(preorder_all(s)[i]) == preorder_all(s).len() + size(m),
    decreases s, 0nat,
{
    let s1 = s.subrange(1, s.len() as int);
    let t1 = t.subrange(1, t.len() as int);
    assert(preorder_all(s) == preorder(s[0]) + preorder_all(s1));
    assert(preorder_all(t) == preorder(t[0]) + preorder_all(t1));
    if i < preorder(s[0]).len() {
        law_replace_then_read(s[0], i, m, t[0]);
    } else {
        lemma_replaced_among_read(s1, i - preorder(s[0]).len(), m, t1);
    }
}

/// Every pre-order position holds exactly one kind of node, so the three
/// index lists of a tree partition its positions.
pub proof fn law_kind_indices_partition(
    nodes: Seq<Node>,
    operators: Seq<usize>,
    functions: Seq<usize>,
    values: Seq<usize>,
)
    requires
        nodes.len() <= usize::MAX,
        are_kind_indices(operators, nodes, NodeKind::Operator),
        are_kind_indices(functions, nodes, NodeKind::Function),
        are_kind_indices(values, nodes, NodeKind::Value),
    ensures
        operators.len() + functions.len() + values.len() == nodes.len(),
        forall|i: int|
            0 <= i < nodes.len() ==> #[trigger] operators.contains(i as usize) || functions.contains(
                i as usize,
            ) || values.contains(i as usize),
        forall|i: usize|
            !(#[trigger] operators.contains(i) && functions.contains(i)) && !(operators.contains(i)
                && values.contains(i)) && !(functions.contains(i) && values.contains(i)),
{
    assert forall|i: int| 0 <= i < nodes.len() implies #[trigger] operators.contains(i as usize)
        || functions.contains(i as usize) || values.contains(i as usize) by {
        let _ = kind_of(nodes[i]);
    }
    assert forall|i: usize|
        !(#[trigger] operators.contains(i) && functions.contains(i)) && !(operators.contains(i)
            && values.contains(i)) && !(functions.contains(i) && values.contains(i)) by {
        if operators.contains(i) {
            let a = choose|a: int| 0 <= a < operators.len() && operators[a] == i;
            assert(kind_of(nodes[operators[a] as int]) == NodeKind::Operator);
        }
        if functions.contains(i) {
            let a = choose|a: int| 0 <= a < functions.len() && functions[a] == i;
            assert(kind_of(nodes[functions[a] as int]) == NodeKind::Function);
        }
        if values.contains(i) {
            let a = choose|a: int| 0 <= a < values.len() && values[a] == i;
            assert(kind_of(nodes[values[a] as int]) == NodeKind::Value);
        }
    }
    lemma_partition_count(nodes, operators, functions, values);
}

proof fn lemma_partition_count(
    nodes: Seq<Node>,
    operators: Seq<usize>,
    functions: Seq<usize>,
    values: Seq<usize>,
)
    requires
        nodes.len() <= usize::MAX,
        are_kind_indices(operators, nodes, NodeKind::Operator),
        are_kind_indices(functions, nodes, NodeKind::Function),
        are_kind_indices(values, nodes, NodeKind::Value),
    ensures
        operators.len() + functions.len() + values.len() == nodes.len(),
{
    lemma_kind_indices_count(operators, nodes, NodeKind::Operator);
    lemma_kind_indices_count(functions, nodes, NodeKind::Function);
    lemma_kind_indices_count(values, nodes, NodeKind::Value);
    lemma_count_kinds_total(nodes);
}

/// The number of positions of `s` holding kind `k`.
pub open spec fn count_kind(s: Seq<Node>, k: NodeKind) -> nat
    decreases s.len(),
{
    if s.len() == 0 {
        0
    } else {
        count_kind(s.drop_last(), k) + if kind_of(s.last()) == k {
            1nat
        } else {
            0nat
        }
    }
}

proof fn lemma_count_kinds_total(s: Seq<Node>)
    ensures
        count_kind(s, NodeKind::Operator) + count_kind(s, NodeKind::Function) + count_kind(
            s,
            NodeKind::Value,
        ) == s.len(),
    decreases s.len(),
{
    if s.len() > 0 {
        lemma_count_kinds_total(s.drop_last());
    }
}

/// A strictly increasing list of exactly the positions of kind `k` has
/// `count_kind` entries.
proof fn lemma_kind_indices_count(r: Seq<usize>, s: Seq<Node>, k: NodeKind)
    requires
        are_kind_indices(r, s, k),
        s.len() <= usize::MAX,
    ensures
        r.len() == count_kind(s, k),
    decreases s.len(),
{
    if s.len() == 0 {
        if r.len() > 0 {
            assert(r[0] < s.len());
        }
    } else {
        let n = (s.len() - 1) as int;
        let s1 = s.drop_last();
        if kind_of(s[n]) == k {
            // the last index is n, the rest index s1
            assert(r.contains(n as usize));
            let w = choose|w: int| 0 <= w < r.len() && r[w] == n as usize;
            if w < r.len() - 1 {
                assert(r[w] < r[r.len() - 1]);
                assert(r[r.len() - 1] < s.len());
            }
            assert(r[r.len() - 1] == n as usize);
            let r1 = r.drop_last();
            assert forall|i: int| 0 <= i < s1.len() && kind_of(#[trigger] s1[i]) == k implies r1.contains(
                i as usize,
            ) by {
                assert(s[i] == s1[i]);
                assert(r.contains(i as usize));
                let v = choose|v: int| 0 <= v < r.len() && r[v] == i as usize;
                assert(v != r.len() - 1);
                assert(r1[v] == r[v]);
            }
            assert forall|a: int| 0 <= a < r1.len() implies r1[a] < s1.len() && kind_of(
                #[trigger] s1[r1[a] as int],
            ) == k by {
                assert(r[a] < r[r.len() - 1]);
                assert(s1[r1[a] as int] == s[r[a] as int]);
            }
            lemma_kind_indices_count(r1, s1, k);
            assert(s.drop_last() == s1);
            assert(s.last() == s[n]);
        } else {
            assert forall|a: int| 0 <= a < r.len() implies r[a] < s1.len() && kind_of(
                #[trigger] s1[r[a] as int],
            ) == k by {
                assert(kind_of(s[r[a] as int]) == k);
                assert(r[a] != n);
                assert(s1[r[a] as int] == s[r[a] as int]);
            }
            assert forall|i: int| 0 <= i < s1.len() && kind_of(#[trigger] s1[i]) == k implies r.contains(
                i as usize,
            ) by {
                assert(s[i] == s1[i]);
            }
            lemma_kind_indices_count(r, s1, k);
            assert(s.last() == s[n]);
        }
    }
}

} // verus!
