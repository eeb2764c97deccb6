//! The first generation of expression trees.
use vstd::prelude::*;
use crate::mutations::{created_for, makes_nodes};
use crate::types::Node;
use crate::types::{clone_strings, string_views, ExpressionTree};

verus! {

/// How many of `available` auxiliary trees a generation of `generation_len`
/// trees takes.
pub open spec fn taken_auxiliary(available: int, generation_len: int) -> int {
    if available < generation_len {
        available
    } else {
        generation_len
    }
}

/// The trees of a first generation of `generation_len` trees: the
/// auxiliary trees in order, taken out of `auxiliary`, as many as fit, then
/// new trees over `variables` whose roots `create_node` makes for a
/// complexity of 0.
pub fn create_initial_expression_trees<F: Fn(&Vec<String>, u32) -> Node>(
    auxiliary: &mut Vec<ExpressionTree>,
    generation_len: usize,
    create_node: &F,
    variables: &Vec<String>,
) -> (r: Vec<ExpressionTree>)
    requires
        makes_nodes(*create_node),
    ensures
        r@.len() == generation_len,
        r@.take(taken_auxiliary(old(auxiliary)@.len() as int, generation_len as int))
            == old(auxiliary)@.take(taken_auxiliary(old(auxiliary)@.len() as int, generation_len as int)),
        final(auxiliary)@ == old(auxiliary)@.skip(taken_auxiliary(old(auxiliary)@.len() as int, generation_len as int)),
        forall|k: int|
            taken_auxiliary(old(auxiliary)@.len() as int, generation_len as int) <= k < generation_len
                ==> string_views(#[trigger] r@[k].variables@) == string_views(variables@) && created_for(
                *create_node,
                variables@,
                0,
                r@[k].root,
            ),
{
    let taken = if auxiliary.len() < generation_len {
        auxiliary.len()
    } else {
        generation_len
    };
    let ghost before = auxiliary@;
    let mut generation = auxiliary.split_off(taken);
    std::mem::swap(auxiliary, &mut generation);
    proof {
        assert(generation@ =~= before.take(taken as int));
        assert(auxiliary@ =~= before.skip(taken as int));
    }
    while generation.len() < generation_len
        invariant
            taken <= generation@.len() <= generation_len,
            generation@.take(taken as int) == before.take(taken as int),
            forall|k: int| taken <= k < generation@.len() ==> string_views(#[trigger] generation@[k].variables@)
                == string_views(variables@) && created_for(*create_node, variables@, 0, generation@[k].root),
            makes_nodes(*create_node),
        decreases generation_len - generation@.len(),
    {
        let root = create_node(variables, 0);
        let tree = ExpressionTree { root, variables: clone_strings(variables) };
        let ghost old_generation = generation@;
        generation.push(tree);
        proof {
            assert(created_for(*create_node, variables@, 0, root));
            assert(generation@.take(taken as int) =~= old_generation.take(taken as int));
        }
    }
    generation
}

} // verus!
