//! Crossing two expression trees.
use vstd::prelude::*;
use crate::random::{drawn, Random};
use crate::traversal::{replaced_at, size};
use crate::types::{node_view, ExpressionTree, Node};

verus! {

/// `child` is `first` with one of its subtrees replaced by a copy of one of
/// the subtrees of `second` (trees taken by their views).
pub open spec fn crossed(first: ExpressionTree, second: ExpressionTree, child: ExpressionTree) -> bool {
    exists|base: Node, i: int, j: int, part: Node|
        #![trigger replaced_at(base, i, part, child.root), second.nodes()[j]]
        node_view(base) == node_view(first.root) && 0 <= i < size(base) && 0 <= j < second.nodes().len()
            && node_view(part) == node_view(second.nodes()[j]) && replaced_at(base, i, part, child.root)
}

/// A copy of `expression_tree1` in which a random subtree is replaced by a
/// copy of a random subtree of `expression_tree2`; the subtree of the second
/// tree is picked first. Both trees must range over the same variables.
pub fn cross<R: Random>(
    expression_tree1: &ExpressionTree,
    expression_tree2: &ExpressionTree,
    random: &mut R,
) -> (r: ExpressionTree)
    requires
        expression_tree1@.variables == expression_tree2@.variables,
    ensures
        r.variables@ == expression_tree1.variables@,
        crossed(*expression_tree1, *expression_tree2, r),
        final(random).source() == old(random).source(),
        exists|j: int, i: int, base: Node, part: Node|
            #![trigger replaced_at(base, i, part, r.root), old(random).draws().push(drawn(expression_tree2.nodes().len() as int, j)).push(drawn(size(base) as int, i))]
            0 <= j < expression_tree2.nodes().len() && node_view(part) == node_view(expression_tree2.nodes()[j])
                && node_view(base) == node_view(expression_tree1.root) && 0 <= i < size(base)
                && final(random).draws() == old(random).draws().push(drawn(expression_tree2.nodes().len() as int, j)).push(
                drawn(size(base) as int, i),
            )
                && replaced_at(base, i, part, r.root),
{
    let ghost start_draws = random.draws();
    let part = expression_tree2.get_random_node(random).clone();
    let ghost after_part = random.draws();
    let mut result_tree = expression_tree1.clone();
    let ghost base = result_tree.root;
    let ghost j = choose|j: int|
        0 <= j < expression_tree2.nodes().len() && node_view(part) == node_view(expression_tree2.nodes()[j])
            && after_part == start_draws.push(drawn(expression_tree2.nodes().len() as int, j));
    *result_tree.get_random_node_mut(random) = part;
    proof {
        let i = choose|i: int|
            0 <= i < size(base) && random.draws() == after_part.push(drawn(size(base) as int, i)) && replaced_at(
                base,
                i,
                part,
                result_tree.root,
            );
        assert(replaced_at(base, i, part, result_tree.root) && expression_tree2.nodes()[j] == expression_tree2.nodes()[j]);
    }
    result_tree
}

/// `i` is a position that the random part of a selection may give: one in
/// `adapted_number..generation_len`, or `adapted_number` itself when that
/// range is empty.
pub open spec fn unadapted_position(i: usize, adapted_number: usize, generation_len: usize) -> bool {
    if adapted_number < generation_len {
        adapted_number <= i < generation_len
    } else {
        i == adapted_number
    }
}

/// The positions, in a generation sorted from best to worst, of the
/// individuals to cross: the first `adapted_number` positions in order,
/// then `unadapted_number` positions picked at random among
/// `adapted_number..generation_len`.
pub fn select_individuals_to_cross<R: Random>(
    random: &mut R,
    adapted_number: usize,
    unadapted_number: usize,
    generation_len: usize,
) -> (r: Vec<usize>)
    requires
        adapted_number + unadapted_number <= usize::MAX,
    ensures
        r@.len() == adapted_number + unadapted_number,
        forall|k: int| 0 <= k < adapted_number ==> #[trigger] r@[k] == k,
        forall|k: int| adapted_number <= k < r@.len() ==> unadapted_position(#[trigger] r@[k], adapted_number, generation_len),
        final(random).draws() == old(random).draws() + r@.skip(adapted_number as int).map_values(
            |v: usize| (adapted_number, generation_len, v),
        ),
        final(random).source() == old(random).source(),
{
    let ghost start_draws = random.draws();
    let mut r: Vec<usize> = Vec::new();
    let mut k: usize = 0;
    while k < adapted_number
        invariant
            k <= adapted_number,
            r@.len() == k,
            forall|j: int| 0 <= j < k ==> #[trigger] r@[j] == j,
        decreases adapted_number - k,
    {
        r.push(k);
        k = k + 1;
    }
    proof {
        assert(r@.skip(adapted_number as int) =~= Seq::<usize>::empty());
        assert(r@.skip(adapted_number as int).map_values(|v: usize| (adapted_number, generation_len, v)) =~= Seq::<
            (usize, usize, usize),
        >::empty());
    }
    let total = adapted_number + unadapted_number;
    while r.len() < total
        invariant
            adapted_number <= r@.len() <= total,
            total == adapted_number + unadapted_number,
            forall|j: int| 0 <= j < adapted_number ==> #[trigger] r@[j] == j,
            forall|j: int| adapted_number <= j < r@.len() ==> unadapted_position(#[trigger] r@[j], adapted_number, generation_len),
            random.draws() == start_draws + r@.skip(adapted_number as int).map_values(
                |v: usize| (adapted_number, generation_len, v),
            ),
            random.source() == old(random).source(),
        decreases total - r@.len(),
    {
        let index = random.gen_range(adapted_number..generation_len);
        let ghost before = r@;
        r.push(index);
        proof {
            assert(r@.skip(adapted_number as int) =~= before.skip(adapted_number as int).push(index));
            assert(r@.skip(adapted_number as int).map_values(|v: usize| (adapted_number, generation_len, v))
                =~= before.skip(adapted_number as int).map_values(|v: usize| (adapted_number, generation_len, v)).push(
                (adapted_number, generation_len, index),
            ));
        }
    }
    r
}

} // verus!
