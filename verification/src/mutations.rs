//! Mutations that reshape an expression tree.
use vstd::prelude::*;
use crate::fitness::{node_complexity, nodes_complexity, own_complexity};
use crate::random::{drawn, kind_position, operation_position, Random};
use crate::settings::Settings;
use crate::traversal::{
    kind_of, lemma_preorder_all_split, lemma_preorder_first, law_replace_then_read, replaced_at, size,
    NodeKind,
};
use crate::types::{
    arguments_of, clone_strings, preorder, preorder_all, string_views, ExpressionTree, Node,
    OperationNode, ValueNode,
};

verus! {

/// Every operator and function node among `nodes` has at least one argument.
pub open spec fn operations_have_arguments(nodes: Seq<Node>) -> bool {
    forall|i: int| 0 <= i < nodes.len() && !(#[trigger] nodes[i] is Value) ==> arguments_of(nodes[i]).len() > 0
}

/// `new` is `old` with one operator or function node replaced by one of its
/// own arguments.
pub open spec fn operation_removed(old: ExpressionTree, new: ExpressionTree) -> bool {
    exists|i: int, k: int|
        0 <= i < old.nodes().len() && !(old.nodes()[i] is Value) && 0 <= k < arguments_of(old.nodes()[i]).len()
            && #[trigger] replaced_at(old.root, i, arguments_of(old.nodes()[i])[k], new.root)
}

/// A tree is larger than each of its arguments.
pub proof fn lemma_argument_smaller(n: Node, k: int)
    requires
        0 <= k < arguments_of(n).len(),
    ensures
        size(arguments_of(n)[k]) < size(n),
{
    lemma_preorder_first(n);
    lemma_preorder_all_split(arguments_of(n), k);
}

impl Node {
    /// Moves the arguments of an operator or function node out, leaving it
    /// with none; a value node is left as it is and gives none.
    pub fn take_arguments(&mut self) -> (r: Vec<Node>)
        ensures
            r@ == arguments_of(*old(self)),
            *old(self) is Value ==> *final(self) == *old(self),
    {
        match self {
            Node::Operator(o) => o.take_arguments(),
            Node::Function(f) => f.take_arguments(),
            Node::Value(_) => Vec::new(),
        }
    }
}

/// Replaces a random operator or function node by one of its arguments,
/// picked at random. Returns `false`, leaving the tree as it is, when the
/// tree has no such node.
pub fn remove_operation_mutation<R: Random>(
    expression_tree: &mut ExpressionTree,
    random: &mut R,
    settings: &Settings,
) -> (r: bool)
    requires
        operations_have_arguments(old(expression_tree).nodes()),
    ensures
        !r <==> forall|i: int| 0 <= i < old(expression_tree).nodes().len() ==> #[trigger] old(expression_tree).nodes()[i] is Value,
        !r ==> *final(expression_tree) == *old(expression_tree) && *final(random) == *old(random),
        r ==> exists|c: int, d: int, k: int, p: int|
            #![trigger operation_position(old(expression_tree).nodes(), c, d, p), old(random).draws().push(drawn(c, d)).push(drawn(arguments_of(old(expression_tree).nodes()[p]).len() as int, k))]
            operation_position(old(expression_tree).nodes(), c, d, p) && 0 <= p < old(expression_tree).nodes().len()
                && 0 <= k < arguments_of(old(expression_tree).nodes()[p]).len()
                && final(random).draws() == old(random).draws().push(drawn(c, d)).push(
                drawn(arguments_of(old(expression_tree).nodes()[p]).len() as int, k),
            ) && replaced_at(
                old(expression_tree).root,
                p,
                arguments_of(old(expression_tree).nodes()[p])[k],
                final(expression_tree).root,
            ),
        final(random).source() == old(random).source(),
        r ==> operation_removed(*old(expression_tree), *final(expression_tree)),
        r ==> final(expression_tree).nodes().len() < old(expression_tree).nodes().len(),
        final(expression_tree).variables == old(expression_tree).variables,
{
    let ghost before = *expression_tree;
    let node = match expression_tree.find_random_operation_node_mut(random) {
        Some(node) => node,
        None => return false,
    };
    let ghost chosen = *node;
    let ghost mid_draws = random.draws();
    let mut arguments = node.take_arguments();
    let k = random.gen_range(0..arguments.len());
    let replacement = arguments.remove(k);
    proof {
        assert(replacement == arguments_of(chosen)[k as int]);
    }
    *node = replacement;
    proof {
        let (c, d, i) = choose|c: int, d: int, i: int|
            operation_position(before.nodes(), c, d, i) && mid_draws == old(random).draws().push(drawn(c, d)) && 0
                <= i < before.nodes().len() && chosen == before.nodes()[i] && replaced_at(
                before.root,
                i,
                replacement,
                final(expression_tree).root,
            );
        lemma_argument_smaller(chosen, k as int);
        assert(random.draws() == old(random).draws().push(drawn(c, d)).push(
            drawn(arguments_of(before.nodes()[i]).len() as int, k as int),
        ));
        law_replace_then_read(before.root, i, replacement, final(expression_tree).root);
        assert(!(before.nodes()[i] is Value));
        assert(replaced_at(before.root, i, arguments_of(before.nodes()[i])[k as int], final(expression_tree).root));
    }
    true
}

} // verus!

verus! {

/// `create_node` can make a subtree for any variables and complexity.
pub open spec fn makes_nodes<F: Fn(&Vec<String>, u32) -> Node>(create_node: F) -> bool {
    forall|v: &Vec<String>, c: u32| #[trigger] create_node.requires((v, c))
}

/// `m` is a subtree that `create_node` may give for a list of `variables`
/// and the complexity `c`.
pub open spec fn created_for<F: Fn(&Vec<String>, u32) -> Node>(
    create_node: F,
    variables: Seq<String>,
    c: u32,
    m: Node,
) -> bool {
    exists|v: &Vec<String>| v@ == variables && #[trigger] create_node.ensures((v, c), m)
}

/// The complexity a new subtree is made for: that of the tree without the
/// part it replaces, moved by `10 - shift`, and at least 0.
pub open spec fn shifted_complexity(tree: nat, part: nat, shift: int) -> int {
    if tree - part + 10 - shift < 0 {
        0
    } else {
        tree - part + 10 - shift
    }
}

/// `f` picks the elements of `t` out of `s`, in order.
pub open spec fn picks<A>(f: Seq<int>, t: Seq<A>, s: Seq<A>) -> bool {
    &&& f.len() == t.len()
    &&& forall|k: int| 0 <= k < f.len() ==> 0 <= #[trigger] f[k] < s.len() && t[k] == s[f[k]]
    &&& forall|a: int, b: int| 0 <= a < b < f.len() ==> f[a] < f[b]
}

/// `t` is `s` with some elements dropped, the others kept in order.
pub open spec fn is_subsequence<A>(t: Seq<A>, s: Seq<A>) -> bool {
    exists|f: Seq<int>| #[trigger] picks(f, t, s)
}

/// `new` is `old` brought to `n` arguments: kept and extended by new
/// subtrees when `old` has at most `n`, else cut down to `n` of its own
/// arguments, in order.
pub open spec fn adapted_arguments(old: Seq<Node>, new: Seq<Node>, n: usize) -> bool {
    &&& new.len() == n
    &&& old.len() <= n ==> new.take(old.len() as int) == old
    &&& old.len() > n ==> is_subsequence(new, old)
}

/// The arity of the operation of a node (none for a value).
pub open spec fn arity_of(m: Node) -> usize {
    match m {
        Node::Operator(o) => o.operation.arguments_number,
        Node::Function(f) => f.operation.arguments_number,
        Node::Value(_) => 0,
    }
}

/// `m` applies one of the operators or functions of `settings`.
pub open spec fn applies_operation_of(settings: &Settings, m: Node) -> bool {
    match m {
        Node::Operator(o) => settings.operators@.contains(o.operation),
        Node::Function(f) => settings.functions@.contains(f.operation),
        Node::Value(_) => false,
    }
}

/// `new` is `old` with one operator or function node replaced by a node
/// that applies an operation of `settings` to the old arguments brought to
/// its arity.
pub open spec fn operation_replaced(settings: &Settings, old: ExpressionTree, new: ExpressionTree) -> bool {
    exists|i: int, m: Node|
        #![trigger replaced_at(old.root, i, m, new.root)]
        0 <= i < old.nodes().len() && !(old.nodes()[i] is Value) && applies_operation_of(settings, m)
            && adapted_arguments(arguments_of(old.nodes()[i]), arguments_of(m), arity_of(m))
            && replaced_at(old.root, i, m, new.root)
}

/// How the drawn shift moves the complexity a new subtree is made for: a
/// shift of 10 keeps that of the tree without the replaced part, each step
/// of the shift above or below moves it down or up by one, and it never
/// falls below 0; so a shift above 10 asks for less than the tree without
/// the part, whenever that is more than 0.
pub proof fn law_shift_moves_complexity(tree: nat, part: nat, shift: int)
    ensures
        shifted_complexity(tree, part, shift) >= 0,
        part <= tree ==> shifted_complexity(tree, part, 10) == tree - part,
        shifted_complexity(tree, part, shift + 1) == if shifted_complexity(tree, part, shift) > 0 {
            shifted_complexity(tree, part, shift) - 1
        } else {
            0
        },
        part <= tree && shift < 10 ==> shifted_complexity(tree, part, shift) == shifted_complexity(
            tree,
            part,
            shift + 1,
        ) + 1,
        part < tree && 10 < shift ==> shifted_complexity(tree, part, shift) < tree - part,
{
}

/// `m` applies the operation at `index` in the operators of `settings`
/// followed by its functions.
pub open spec fn applies_drawn_operation(settings: &Settings, index: int, m: Node) -> bool {
    if index < settings.operators@.len() {
        m matches Node::Operator(o) && o.operation == settings.operators@[index]
    } else {
        m matches Node::Function(f) && f.operation == settings.functions@[index - settings.operators@.len()]
    }
}

/// Every operator and function of `settings` has a complexity of at most
/// `i32::MAX`.
pub open spec fn moderate_operations(settings: &Settings) -> bool {
    &&& forall|k: int| 0 <= k < settings.operators@.len() ==> #[trigger] settings.operators@[k].complexity <= i32::MAX
    &&& forall|k: int| 0 <= k < settings.functions@.len() ==> #[trigger] settings.functions@[k].complexity <= i32::MAX
}

/// `s` with the elements at the drawn positions `ds` removed one after the
/// other, each position counted in what the earlier removals left.
pub open spec fn removed_by(s: Seq<Node>, ds: Seq<(usize, usize, usize)>) -> Seq<Node>
    decreases ds.len(),
{
    if ds.len() == 0 {
        s
    } else {
        removed_by(s, ds.drop_last()).remove(ds.last().2 as int)
    }
}

/// Each draw of `ds` is a position drawn from what is left of `len`
/// elements when it is removed.
pub open spec fn removals_fit(len: int, ds: Seq<(usize, usize, usize)>) -> bool {
    forall|k: int| 0 <= k < ds.len() ==> (#[trigger] ds[k]).0 == 0 && ds[k].1 == len - k && ds[k].2 < len - k
}

/// `new` is `old` brought to `n` arguments, the drawn removals being `ds`:
/// kept and extended by new subtrees (no draw) when `old` has at most `n`,
/// else cut down by removing at the drawn positions.
pub open spec fn adapted_by_draws(old: Seq<Node>, new: Seq<Node>, n: usize, ds: Seq<(usize, usize, usize)>) -> bool {
    if old.len() > n {
        &&& ds.len() == old.len() - n
        &&& removals_fit(old.len() as int, ds)
        &&& new == removed_by(old, ds)
    } else {
        &&& ds.len() == 0
        &&& new.len() == n
        &&& new.take(old.len() as int) == old
    }
}

/// Brings `arguments` to `n` of them: new subtrees of the given complexity
/// are appended while there are fewer, random ones are removed while there
/// are more.
pub fn prepare_arguments<R: Random, F: Fn(&Vec<String>, u32) -> Node>(
    random: &mut R,
    create_node: &F,
    variables: &Vec<String>,
    arguments: &mut Vec<Node>,
    n: usize,
    complexity: u32,
)
    requires
        makes_nodes(*create_node),
    ensures
        adapted_arguments(old(arguments)@, final(arguments)@, n),
        forall|k: int|
            old(arguments)@.len() <= k < final(arguments)@.len() ==> created_for(
                *create_node,
                variables@,
                complexity,
                #[trigger] final(arguments)@[k],
            ),
        final(random).source() == old(random).source(),
        exists|ds: Seq<(usize, usize, usize)>|
            final(random).draws() == old(random).draws() + ds && adapted_by_draws(
                old(arguments)@,
                final(arguments)@,
                n,
                ds,
            ),
{
    let ghost old_args = arguments@;
    let ghost old_draws = random.draws();
    while arguments.len() < n
        invariant
            arguments@.len() >= old_args.len(),
            old_args.len() <= n ==> arguments@.len() <= n && arguments@.take(old_args.len() as int) == old_args,
            old_args.len() > n ==> arguments@ == old_args,
            makes_nodes(*create_node),
            forall|k: int|
                old_args.len() <= k < arguments@.len() ==> created_for(
                    *create_node,
                    variables@,
                    complexity,
                    #[trigger] arguments@[k],
                ),
        decreases n - arguments@.len(),
    {
        let node = create_node(variables, complexity);
        let ghost before = arguments@;
        arguments.push(node);
        proof {
            assert(arguments@.take(old_args.len() as int) =~= before.take(old_args.len() as int));
        }
    }
    let ghost mut f: Seq<int> = Seq::new(arguments@.len(), |k: int| k);
    let ghost mut ds: Seq<(usize, usize, usize)> = Seq::empty();
    proof {
        if old_args.len() > n {
            assert(picks(f, arguments@, old_args));
        }
        assert(removed_by(old_args, ds) == old_args);
        assert(random.draws() =~= old_draws + ds);
    }
    while arguments.len() > n
        invariant
            arguments@.len() >= n,
            arguments@.len() >= old_args.len() || old_args.len() > n,
            old_args.len() <= n ==> arguments@.len() == n && arguments@.take(old_args.len() as int) == old_args,
            old_args.len() > n ==> picks(f, arguments@, old_args),
            forall|k: int|
                old_args.len() <= k < arguments@.len() ==> created_for(
                    *create_node,
                    variables@,
                    complexity,
                    #[trigger] arguments@[k],
                ),
            random.draws() == old_draws + ds,
            random.source() == old(random).source(),
            old_args.len() <= n ==> ds.len() == 0,
            old_args.len() > n ==> arguments@ == removed_by(old_args, ds) && ds.len() == old_args.len()
                - arguments@.len() && removals_fit(old_args.len() as int, ds),
        decreases arguments@.len(),
    {
        let len = arguments.len();
        let index = random.gen_range(0..len);
        let ghost before = arguments@;
        arguments.remove(index);
        proof {
            let ds2 = ds.push((0usize, len, index));
            assert(ds2.drop_last() =~= ds);
            assert(random.draws() =~= old_draws + ds2);
            assert(removals_fit(old_args.len() as int, ds2)) by {
                assert forall|k: int| 0 <= k < ds2.len() implies (#[trigger] ds2[k]).0 == 0 && ds2[k].1
                    == old_args.len() - k && ds2[k].2 < old_args.len() - k by {
                    if k < ds.len() {
                        assert(ds2[k] == ds[k]);
                    }
                }
            }
            ds = ds2;
            if old_args.len() > n {
                let g = f.remove(index as int);
                assert forall|k: int| 0 <= k < g.len() implies 0 <= #[trigger] g[k] < old_args.len() && arguments@[k]
                    == old_args[g[k]] by {
                    if k < index {
                        assert(g[k] == f[k] && arguments@[k] == before[k]);
                    } else {
                        assert(g[k] == f[k + 1] && arguments@[k] == before[k + 1]);
                    }
                }
                assert forall|a: int, b: int| 0 <= a < b < g.len() implies g[a] < g[b] by {
                    let fa = if a < index { a } else { a + 1 };
                    let fb = if b < index { b } else { b + 1 };
                    assert(g[a] == f[fa] && g[b] == f[fb]);
                }
                f = g;
            }
        }
    }
    proof {
        if old_args.len() > n {
            assert(picks(f, arguments@, old_args));
        }
        assert(adapted_by_draws(old_args, arguments@, n, ds));
    }
}

/// A subtree is no more complex than the tree it is part of.
pub proof fn lemma_subtree_complexity(n: Node, i: int, vc: u32, cc: u32)
    requires
        0 <= i < size(n),
    ensures
        node_complexity(preorder(n)[i], vc, cc) <= node_complexity(n, vc, cc),
    decreases n, 1nat,
{
    lemma_preorder_first(n);
    if i > 0 {
        lemma_subtrees_complexity(arguments_of(n), i - 1, vc, cc);
    }
}

proof fn lemma_subtrees_complexity(s: Seq<Node>, j: int, vc: u32, cc: u32)
    requires
        0 <= j < preorder_all(s).len(),
    ensures
        node_complexity(preorder_all(s)[j], vc, cc) <= nodes_complexity(s, vc, cc),
    decreases s, 0nat,
{
    let rest = s.subrange(1, s.len() as int);
    assert(preorder_all(s) == preorder(s[0]) + preorder_all(rest));
    if j < preorder(s[0]).len() {
        lemma_subtree_complexity(s[0], j, vc, cc);
    } else {
        lemma_subtrees_complexity(rest, j - preorder(s[0]).len(), vc, cc);
    }
}

/// Replaces a random operator or function node with a random operation of
/// `settings`: the old arguments are kept when the new operation takes at
/// least as many, new subtrees from `create_node` make up the rest, and random
/// ones are dropped when it takes fewer. Returns `false`, leaving the tree
/// as it is, when the tree has no such node.
pub fn replace_operation_mutation<R: Random, F: Fn(&Vec<String>, u32) -> Node>(
    expression_tree: &mut ExpressionTree,
    random: &mut R,
    settings: &Settings,
    create_node: &F,
) -> (r: bool)
    requires
        makes_nodes(*create_node),
        node_complexity(old(expression_tree).root, settings.variable_complexity, settings.constant_complexity)
            <= i32::MAX - 10,
        moderate_operations(settings),
        0 < settings.operators@.len() + settings.functions@.len() <= usize::MAX,
    ensures
        !r <==> forall|i: int| 0 <= i < old(expression_tree).nodes().len() ==> #[trigger] old(expression_tree).nodes()[i] is Value,
        !r ==> *final(expression_tree) == *old(expression_tree) && *final(random) == *old(random),
        r ==> operation_replaced(settings, *old(expression_tree), *final(expression_tree)),
        r ==> exists|c: int, d: int, shift: int, index: int, ds: Seq<(usize, usize, usize)>, p: int, m: Node|
            #![trigger operation_position(old(expression_tree).nodes(), c, d, p), replaced_at(old(expression_tree).root, p, m, final(expression_tree).root), old(random).draws().push(drawn(c, d)).push(drawn(21, shift)).push(drawn((settings.operators@.len() + settings.functions@.len()) as int, index)) + ds]
            operation_position(old(expression_tree).nodes(), c, d, p) && 0 <= p < old(expression_tree).nodes().len()
                && 0 <= shift < 21 && 0 <= index < settings.operators@.len() + settings.functions@.len()
                && final(random).draws() == old(random).draws().push(drawn(c, d)).push(drawn(21, shift)).push(
                drawn((settings.operators@.len() + settings.functions@.len()) as int, index),
            ) + ds && applies_drawn_operation(settings, index, m) && adapted_by_draws(
                arguments_of(old(expression_tree).nodes()[p]),
                arguments_of(m),
                arity_of(m),
                ds,
            ) && replaced_at(old(expression_tree).root, p, m, final(expression_tree).root) && forall|k: int|
                arguments_of(old(expression_tree).nodes()[p]).len() <= k < arguments_of(m).len() ==> created_for(
                    *create_node,
                    old(expression_tree).variables@,
                    (shifted_complexity(
                        node_complexity(old(expression_tree).root, settings.variable_complexity, settings.constant_complexity),
                        own_complexity(old(expression_tree).nodes()[p], settings.variable_complexity, settings.constant_complexity),
                        shift,
                    ) + own_complexity(m, settings.variable_complexity, settings.constant_complexity)) as u32,
                    #[trigger] arguments_of(m)[k],
                ),
        final(random).source() == old(random).source(),
        final(expression_tree).variables == old(expression_tree).variables,
{
    let variables = clone_strings(&expression_tree.variables);
    let tree_complexity = expression_tree.get_complexity(settings);
    let ghost before = *expression_tree;
    let ghost start_draws = random.draws();
    let node = match expression_tree.find_random_operation_node_mut(random) {
        Some(node) => node,
        None => return false,
    };
    let ghost chosen = *node;
    let ghost after_find = random.draws();
    proof {
        let i = choose|i: int| 0 <= i < before.nodes().len() && chosen == before.nodes()[i];
        lemma_subtree_complexity(before.root, i, settings.variable_complexity, settings.constant_complexity);
    }
    let operation_complexity: u32 = match &*node {
        Node::Operator(o) => o.operation.complexity,
        Node::Function(f) => f.operation.complexity,
        Node::Value(_) => 0,
    };
    let mut arguments = node.take_arguments();
    let ghost old_arguments = arguments@;
    let shift = random.gen_range(0..21);
    let complexity_random: i64 = 10 - shift as i64;
    let shifted: i64 = tree_complexity as i64 - operation_complexity as i64 + complexity_random;
    let complexity: u32 = if shifted < 0 {
        0
    } else {
        shifted as u32
    };
    let count = settings.operators.len() + settings.functions.len();
    let index = random.gen_range(0..count);
    let ghost drawn_so_far = random.draws();
    let ghost replacement: Node;
    let ghost ds: Seq<(usize, usize, usize)>;
    let ghost arg_complexity: u32;
    if index < settings.operators.len() {
        let operator = settings.operators[index].clone();
        assert(settings.operators@[index as int].complexity <= i32::MAX);
        let n = operator.arguments_number;
        prepare_arguments(random, create_node, &variables, &mut arguments, n, complexity + operator.complexity);
        proof {
            arg_complexity = (complexity + operator.complexity) as u32;
            ds = choose|ds2: Seq<(usize, usize, usize)>| random.draws() == drawn_so_far + ds2 && adapted_by_draws(old_arguments, arguments@, n, ds2);
        }
        let m = Node::Operator(OperationNode { operation: operator, arguments });
        proof {
            replacement = m;
            assert(adapted_by_draws(old_arguments, arguments_of(m), arity_of(m), ds));
            assert(settings.operators@[index as int] == operator);
        }
        *node = m;
    } else {
        let k = index - settings.operators.len();
        let function = settings.functions[k].clone();
        assert(settings.functions@[k as int].complexity <= i32::MAX);
        let n = function.arguments_number;
        prepare_arguments(random, create_node, &variables, &mut arguments, n, complexity + function.complexity);
        proof {
            arg_complexity = (complexity + function.complexity) as u32;
            ds = choose|ds2: Seq<(usize, usize, usize)>| random.draws() == drawn_so_far + ds2 && adapted_by_draws(old_arguments, arguments@, n, ds2);
        }
        let m = Node::Function(OperationNode { operation: function, arguments });
        proof {
            replacement = m;
            assert(adapted_by_draws(old_arguments, arguments_of(m), arity_of(m), ds));
            assert(settings.functions@[k as int] == function);
        }
        *node = m;
    }
    proof {
        let (c, d, i) = choose|c: int, d: int, i: int|
            operation_position(before.nodes(), c, d, i) && after_find == start_draws.push(drawn(c, d)) && 0 <= i
                < before.nodes().len() && chosen == before.nodes()[i] && replaced_at(
                before.root,
                i,
                replacement,
                final(expression_tree).root,
            );
        assert(!(before.nodes()[i] is Value));
        assert(applies_operation_of(settings, replacement));
        assert(old_arguments == arguments_of(before.nodes()[i]));
        assert(drawn_so_far == start_draws.push(drawn(c, d)).push(drawn(21, shift as int)).push(
            drawn((settings.operators@.len() + settings.functions@.len()) as int, index as int),
        ));
        assert(applies_drawn_operation(settings, index as int, replacement));
        assert(random.draws() =~= drawn_so_far + ds);
        assert(adapted_by_draws(old_arguments, arguments_of(replacement), arity_of(replacement), ds));
        assert(replaced_at(before.root, i, replacement, final(expression_tree).root));
        assert(arg_complexity == (shifted_complexity(
            node_complexity(before.root, settings.variable_complexity, settings.constant_complexity),
            own_complexity(before.nodes()[i], settings.variable_complexity, settings.constant_complexity),
            shift as int,
        ) + own_complexity(replacement, settings.variable_complexity, settings.constant_complexity)) as u32);
    }
    true
}

/// Replaces a random subtree with a new one from `create_node`, made for
/// the complexity of the tree without that subtree, give or take 10.
pub fn replace_subtree_mutation<R: Random, F: Fn(&Vec<String>, u32) -> Node>(
    expression_tree: &mut ExpressionTree,
    random: &mut R,
    settings: &Settings,
    create_node: &F,
) -> (r: bool)
    requires
        node_complexity(old(expression_tree).root, settings.variable_complexity, settings.constant_complexity)
            <= i32::MAX - 10,
        makes_nodes(*create_node),
    ensures
        r,
        exists|shift: int, i: int, m: Node|
            #![trigger replaced_at(old(expression_tree).root, i, m, final(expression_tree).root), old(random).draws().push(drawn(21, shift)).push(drawn(old(expression_tree).nodes().len() as int, i))]
            0 <= shift < 21 && 0 <= i < old(expression_tree).nodes().len()
                && final(random).draws() == old(random).draws().push(drawn(21, shift)).push(
                drawn(old(expression_tree).nodes().len() as int, i),
            ) && created_for(
                *create_node,
                old(expression_tree).variables@,
                shifted_complexity(
                    node_complexity(old(expression_tree).root, settings.variable_complexity, settings.constant_complexity),
                    node_complexity(old(expression_tree).nodes()[i], settings.variable_complexity, settings.constant_complexity),
                    shift,
                ) as u32,
                m,
            ) && replaced_at(old(expression_tree).root, i, m, final(expression_tree).root),
        final(random).source() == old(random).source(),
        final(expression_tree).variables == old(expression_tree).variables,
{
    let variables = clone_strings(&expression_tree.variables);
    let tree_complexity = expression_tree.get_complexity(settings);
    let ghost start_draws = random.draws();
    let shift = random.gen_range(0..21);
    let complexity_random: i64 = 10 - shift as i64;
    let ghost after_shift = random.draws();
    let ghost before = *expression_tree;
    let node = expression_tree.get_random_node_mut(random);
    proof {
        let i = choose|i: int| 0 <= i < before.nodes().len() && *node == before.nodes()[i];
        lemma_subtree_complexity(before.root, i, settings.variable_complexity, settings.constant_complexity);
    }
    let node_complexity = node.get_complexity(settings);
    let shifted: i64 = tree_complexity as i64 - node_complexity as i64 + complexity_random;
    let complexity: u32 = if shifted < 0 {
        0
    } else {
        shifted as u32
    };
    let replacement = create_node(&variables, complexity);
    let ghost chosen = *node;
    *node = replacement;
    proof {
        let i = choose|i: int|
            0 <= i < before.nodes().len() && chosen == before.nodes()[i] && random.draws() == after_shift.push(
                drawn(before.nodes().len() as int, i),
            ) && replaced_at(before.root, i, replacement, final(expression_tree).root);
        assert(random.draws() == start_draws.push(drawn(21, shift as int)).push(drawn(before.nodes().len() as int, i)));
        assert(created_for(*create_node, before.variables@, complexity, replacement));
    }
    true
}

/// A tree has a node of the kind of a leaf.
pub open spec fn has_value_node(t: ExpressionTree) -> bool {
    exists|i: int| 0 <= i < t.nodes().len() && #[trigger] t.nodes()[i] is Value
}

/// `m` is a value that `create_value` may give for a list of `variables`.
pub open spec fn value_created_for<F: Fn(&Vec<String>) -> Node>(create_value: F, variables: Seq<String>, m: Node) -> bool {
    exists|v: &Vec<String>| v@ == variables && #[trigger] create_value.ensures((v,), m)
}

/// Replaces a random leaf with a new variable or constant from
/// `create_value` (made before the leaf is picked).
pub fn replace_leaf_mutation<R: Random, F: Fn(&Vec<String>) -> Node>(
    expression_tree: &mut ExpressionTree,
    random: &mut R,
    settings: &Settings,
    create_value: &F,
) -> (r: bool)
    requires
        has_value_node(*old(expression_tree)),
        forall|v: &Vec<String>| #[trigger] create_value.requires((v,)),
    ensures
        r,
        exists|c: int, d: int, i: int, m: Node|
            #![trigger replaced_at(old(expression_tree).root, i, m, final(expression_tree).root), kind_position(old(expression_tree).nodes(), NodeKind::Value, c, d, i)]
            kind_position(old(expression_tree).nodes(), NodeKind::Value, c, d, i)
                && final(random).draws() == old(random).draws().push(drawn(c, d)) && 0 <= i < old(expression_tree).nodes().len()
                && old(expression_tree).nodes()[i] is Value && value_created_for(*create_value, old(expression_tree).variables@, m)
                && replaced_at(old(expression_tree).root, i, m, final(expression_tree).root),
        final(random).source() == old(random).source(),
        final(expression_tree).variables == old(expression_tree).variables,
{
    let variables = clone_strings(&expression_tree.variables);
    let value = create_value(&variables);
    let ghost before = *expression_tree;
    proof {
        let i = choose|i: int| 0 <= i < expression_tree.nodes().len() && #[trigger] expression_tree.nodes()[i] is Value;
        assert(kind_of(expression_tree.nodes()[i]) == NodeKind::Value);
    }
    let node = expression_tree.get_random_value_node_mut(random);
    *node = value;
    proof {
        assert(value_created_for(*create_value, before.variables@, value));
    }
    true
}

/// `new` is `old` with one leaf replaced by a leaf of the same kind: a
/// variable by a variable of `variables`, a constant by a constant.
pub open spec fn leaf_shifted(old: ExpressionTree, new: ExpressionTree, variables: Seq<Seq<char>>) -> bool {
    exists|i: int, m: Node|
        #![trigger replaced_at(old.root, i, m, new.root)]
        0 <= i < old.nodes().len() && replaced_at(old.root, i, m, new.root) && match old.nodes()[i] {
            Node::Value(ValueNode::Variable(_)) => m matches Node::Value(ValueNode::Variable(v)) && variables.contains(v@),
            Node::Value(ValueNode::Constant(_)) => m matches Node::Value(ValueNode::Constant(_)),
            _ => false,
        }
}

/// What a leaf `old` becomes under the draws that follow its pick (from
/// `picked` to `last`): a variable becomes the variable of `variables` at
/// the one further draw, a constant becomes what `shift_constant` gives
/// for it, with no draw.
pub open spec fn leaf_shifted_by_draws<F: Fn(u64) -> u64>(
    old: Node,
    m: Node,
    variables: Seq<String>,
    picked: Seq<(usize, usize, usize)>,
    last: Seq<(usize, usize, usize)>,
    shift_constant: F,
) -> bool {
    match old {
        Node::Value(ValueNode::Variable(_)) => exists|k: int|
            #[trigger] picked.push(drawn(variables.len() as int, k)) == last && 0 <= k < variables.len() && m == Node::Value(ValueNode::Variable(variables[k])),
        Node::Value(ValueNode::Constant(b)) => last == picked && (m matches Node::Value(ValueNode::Constant(c))
            && shift_constant.ensures((b,), c)),
        _ => false,
    }
}

/// Replaces a random leaf with one of the same kind: a variable with a
/// random variable of the tree, a constant with what `shift_constant`
/// gives for it.
pub fn shift_leaf_mutation<R: Random, F: Fn(u64) -> u64>(
    expression_tree: &mut ExpressionTree,
    random: &mut R,
    settings: &Settings,
    shift_constant: &F,
) -> (r: bool)
    requires
        has_value_node(*old(expression_tree)),
        forall|b: u64| #[trigger] shift_constant.requires((b,)),
        old(expression_tree).variables@.len() > 0 || forall|i: int|
            0 <= i < old(expression_tree).nodes().len() ==> !(#[trigger] old(expression_tree).nodes()[i] matches Node::Value(ValueNode::Variable(_))),
    ensures
        r,
        leaf_shifted(*old(expression_tree), *final(expression_tree), string_views(old(expression_tree).variables@)),
        exists|c: int, d: int, i: int, m: Node|
            #![trigger replaced_at(old(expression_tree).root, i, m, final(expression_tree).root), kind_position(old(expression_tree).nodes(), NodeKind::Value, c, d, i)]
            kind_position(old(expression_tree).nodes(), NodeKind::Value, c, d, i) && 0 <= i < old(
                expression_tree,
            ).nodes().len() && replaced_at(old(expression_tree).root, i, m, final(expression_tree).root)
                && leaf_shifted_by_draws(
                old(expression_tree).nodes()[i],
                m,
                old(expression_tree).variables@,
                old(random).draws().push(drawn(c, d)),
                final(random).draws(),
                *shift_constant,
            ),
        final(random).source() == old(random).source(),
        final(expression_tree).variables == old(expression_tree).variables,
{
    let variables = clone_strings(&expression_tree.variables);
    let ghost before = *expression_tree;
    let ghost start_draws = random.draws();
    proof {
        let i = choose|i: int| 0 <= i < expression_tree.nodes().len() && #[trigger] expression_tree.nodes()[i] is Value;
        assert(kind_of(expression_tree.nodes()[i]) == NodeKind::Value);
    }
    let node = expression_tree.get_random_value_node_mut(random);
    let ghost chosen = *node;
    let ghost picked = random.draws();
    let replacement = match &*node {
        Node::Value(ValueNode::Variable(_)) => {
            proof {
                assert(string_views(before.variables@) == string_views(variables@));
            }
            Node::create_random_variable(random, variables.as_slice())
        },
        Node::Value(ValueNode::Constant(bits)) => Node::Value(
            ValueNode::Constant(shift_constant(*bits)),
        ),
        _ => unreached(),
    };
    *node = replacement;
    proof {
        let (c, d, i) = choose|c: int, d: int, i: int|
            kind_position(before.nodes(), NodeKind::Value, c, d, i) && picked == start_draws.push(drawn(c, d)) && 0 <= i
                < before.nodes().len() && chosen == before.nodes()[i] && replaced_at(
                before.root,
                i,
                replacement,
                final(expression_tree).root,
            );
        assert(leaf_shifted_by_draws(chosen, replacement, before.variables@, picked, random.draws(), *shift_constant));
    }
    true
}

} // verus!
