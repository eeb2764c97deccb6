//! Random choices on expression trees.
use vstd::prelude::*;
use rand::Rng;
use crate::traversal::{are_kind_indices, kind_of, replaced_at, NodeKind};
use crate::types::{string_views, ExpressionTree, Node, ValueNode};

verus! {

/// A source of random indices.
pub trait Random {
    /// What this source has given so far, in order: for each number the
    /// start and the end of the range asked for, and the number.
    spec fn draws(&self) -> Seq<(usize, usize, usize)>;

    /// What the source draws from and keeps from one draw to the next (the
    /// cycle of a `MockRandom`; nothing for `DefaultRandom`).
    spec fn source(&self) -> Seq<usize>;

    /// A number in `range`; `range.start` when the range is empty.
    fn gen_range(&mut self, range: core::ops::Range<usize>) -> (r: usize)
        ensures
            range.start < range.end ==> range.start <= r < range.end,
            range.start >= range.end ==> r == range.start,
            final(self).draws() == old(self).draws().push((range.start, range.end, r)),
            final(self).source() == old(self).source(),
    ;
}

/// `s` has `count` nodes of kind `k`, and `p` is the position, in
/// pre-order, of the `d`-th of them.
pub open spec fn kind_position(s: Seq<Node>, k: NodeKind, count: int, d: int, p: int) -> bool {
    exists|r: Seq<usize>| #[trigger] are_kind_indices(r, s, k) && r.len() == count && 0 <= d < r.len() && r[d] == p
}

/// `s` has `count` operator and function nodes, and `p` is the `d`-th
/// position in the list of its operator positions followed by its function
/// positions.
pub open spec fn operation_position(s: Seq<Node>, count: int, d: int, p: int) -> bool {
    exists|ops: Seq<usize>, fns: Seq<usize>|
        #![trigger are_kind_indices(ops, s, NodeKind::Operator), are_kind_indices(fns, s, NodeKind::Function)]
        are_kind_indices(ops, s, NodeKind::Operator) && are_kind_indices(fns, s, NodeKind::Function) && ops.len()
            + fns.len() == count && 0 <= d < count && (ops + fns)[d] == p
}

/// The draw of `value` from `0..end`.
pub open spec fn drawn(end: int, value: int) -> (usize, usize, usize) {
    (0usize, end as usize, value as usize)
}

#[verifier::external_type_specification]
#[verifier::external_body]
pub struct ExThreadRng(rand::rngs::ThreadRng);

/// The thread-local generator of the `rand` crate (`rand::thread_rng`).
#[verifier::external_body]
fn new_thread_rng() -> rand::rngs::ThreadRng {
    rand::thread_rng()
}

/// `Rng::gen_range` of the `rand` crate on a non-empty range: a number in
/// `start..end` (the crate panics on an empty range, which `requires` rules
/// out).
#[verifier::external_body]
fn thread_rng_gen_range(rng: &mut rand::rngs::ThreadRng, start: usize, end: usize) -> (r: usize)
    requires
        start < end,
    ensures
        start <= r < end,
{
    rng.gen_range(start..end)
}

/// Random numbers from the thread-local generator.
pub struct DefaultRandom {
    rng: rand::rngs::ThreadRng,
    drawn: Ghost<Seq<(usize, usize, usize)>>,
}

impl DefaultRandom {
    pub fn default() -> (r: DefaultRandom)
        ensures
            r.draws() == Seq::<(usize, usize, usize)>::empty(),
    {
        DefaultRandom { rng: new_thread_rng(), drawn: Ghost(Seq::empty()) }
    }
}

impl Random for DefaultRandom {
    closed spec fn draws(&self) -> Seq<(usize, usize, usize)> {
        self.drawn@
    }

    open spec fn source(&self) -> Seq<usize> {
        Seq::empty()
    }

    fn gen_range(&mut self, range: core::ops::Range<usize>) -> (r: usize) {
        let r = if range.start >= range.end {
            range.start
        } else {
            thread_rng_gen_range(&mut self.rng, range.start, range.end)
        };
        self.drawn = Ghost(self.drawn@.push((range.start, range.end, r)));
        r
    }
}

/// Replays a fixed cycle of numbers, one step per draw; a number that does
/// not fall in the requested range gives the start of the range.
pub struct MockRandom {
    ints: Vec<usize>,
    state: MockState,
}

/// Where a `MockRandom` stands in its cycle, and what it has given.
struct MockState {
    next: usize,
    drawn: Ghost<Seq<(usize, usize, usize)>>,
}

/// What `MockRandom` gives for `range` when its cycle is at `next`.
pub open spec fn mock_value(ints: Seq<usize>, next: usize, range: core::ops::Range<usize>) -> usize {
    if ints.len() == 0 {
        range.start
    } else {
        let value = ints[next as int % ints.len() as int];
        if range.start <= value && value < range.end {
            value
        } else {
            range.start
        }
    }
}

/// Where the cycle `ints` stands after the draws `log`, from its start:
/// every draw moves it one step.
pub open spec fn mock_next(ints: Seq<usize>, log: Seq<(usize, usize, usize)>) -> usize
    decreases log.len(),
{
    if log.len() == 0 {
        0
    } else {
        let n = mock_next(ints, log.drop_last());
        if ints.len() > 0 {
            ((n as int % ints.len() as int + 1) % ints.len() as int) as usize
        } else {
            n
        }
    }
}

/// Each draw of `log` gave what the cycle `ints` gives for its range at
/// the point the earlier draws left it.
pub open spec fn mock_replays(ints: Seq<usize>, log: Seq<(usize, usize, usize)>) -> bool {
    forall|k: int|
        0 <= k < log.len() ==> (#[trigger] log[k]).2 == mock_value(
            ints,
            mock_next(ints, log.take(k)),
            core::ops::Range { start: log[k].0, end: log[k].1 },
        )
}

impl MockRandom {
    /// The draws so far are what the cycle gives from its start.
    #[verifier::type_invariant]
    pub closed spec fn replays_its_cycle(self) -> bool {
        &&& self.state.next == mock_next(self.ints@, self.state.drawn@)
        &&& mock_replays(self.ints@, self.state.drawn@)
        &&& self.ints@.len() > 0 ==> self.state.next < self.ints@.len()
    }

    /// A generator replaying `ints`, from its first number.
    pub fn new_int(ints: Vec<usize>) -> (r: MockRandom)
        ensures
            r.source() == ints@,
            r.draws() == Seq::<(usize, usize, usize)>::empty(),
    {
        MockRandom { ints, state: MockState { next: 0, drawn: Ghost(Seq::empty()) } }
    }

    /// A generator with an empty cycle: every range gives its start.
    pub fn default() -> (r: MockRandom)
        ensures
            r.source().len() == 0,
            r.draws() == Seq::<(usize, usize, usize)>::empty(),
    {
        MockRandom::new_int(Vec::new())
    }

    /// Every draw of a generator was what its cycle gives for the range
    /// asked for (call `use_type_invariant` on the generator first).
    pub proof fn lemma_replays(m: MockRandom)
        requires
            m.replays_its_cycle(),
        ensures
            mock_replays(m.source(), m.draws()),
    {
    }
}

impl Random for MockRandom {
    closed spec fn draws(&self) -> Seq<(usize, usize, usize)> {
        self.state.drawn@
    }

    closed spec fn source(&self) -> Seq<usize> {
        self.ints@
    }

    fn gen_range(&mut self, range: core::ops::Range<usize>) -> (r: usize)
        ensures
            r == mock_value(old(self).source(), mock_next(old(self).source(), old(self).draws()), range),
    {
        proof {
            use_type_invariant(&*self);
        }
        let ghost log = self.state.drawn@;
        let (next, r) = if self.ints.len() == 0 {
            (self.state.next, range.start)
        } else {
            let i = self.state.next % self.ints.len();
            let value = self.ints[i];
            let next = (i + 1) % self.ints.len();
            if range.start <= value && value < range.end {
                (next, value)
            } else {
                (next, range.start)
            }
        };
        let ghost new_log = log.push((range.start, range.end, r));
        proof {
            assert(new_log.drop_last() =~= log);
            assert(r == mock_value(self.ints@, self.state.next, range));
            assert forall|k: int| 0 <= k < new_log.len() implies (#[trigger] new_log[k]).2 == mock_value(
                self.ints@,
                mock_next(self.ints@, new_log.take(k)),
                core::ops::Range { start: new_log[k].0, end: new_log[k].1 },
            ) by {
                if k < log.len() {
                    assert(new_log.take(k) =~= log.take(k));
                    assert(new_log[k] == log[k]);
                } else {
                    assert(new_log.take(k) =~= log);
                }
            }
        }
        self.state = MockState { next, drawn: Ghost(new_log) };
        r
    }
}

impl Node {
    /// A variable node naming one of `variables`, picked at random.
    pub fn create_random_variable<R: Random>(random: &mut R, variables: &[String]) -> (r: Node)
        requires
            variables@.len() > 0,
        ensures
            final(random).source() == old(random).source(),
            r matches Node::Value(ValueNode::Variable(v)) && string_views(variables@).contains(v@),
            exists|k: int|
                0 <= k < variables@.len() && final(random).draws() == old(random).draws().push(
                    drawn(variables@.len() as int, k),
                ) && r == Node::Value(ValueNode::Variable(variables@[k])),
    {
        let k = random.gen_range(0..variables.len());
        let name = variables[k].clone();
        proof {
            assert(string_views(variables@)[k as int] == name@);
            assert(drawn(variables@.len() as int, k as int) == (0usize, variables.len(), k));
        }
        Node::Value(ValueNode::Variable(name))
    }
}

impl ExpressionTree {
    /// A node of the tree, picked at random.
    pub fn get_random_node<R: Random>(&self, random: &mut R) -> (r: &Node)
        ensures
            final(random).source() == old(random).source(),
            exists|i: int|
                0 <= i < self.nodes().len() && *r == self.nodes()[i] && final(random).draws() == old(random).draws().push(
                    drawn(self.nodes().len() as int, i),
                ),
    {
        let count = self.count_nodes();
        let index = random.gen_range(0..count);
        self.get_node_at(index)
    }

    /// A node of the tree, picked at random, to be replaced through the
    /// returned reference.
    pub fn get_random_node_mut<R: Random>(&mut self, random: &mut R) -> (r: &mut Node)
        ensures
            final(random).source() == old(random).source(),
            exists|i: int|
                0 <= i < old(self).nodes().len() && *r == old(self).nodes()[i] && final(random).draws() == old(random).draws().push(
                    drawn(old(self).nodes().len() as int, i),
                ) && replaced_at(
                    old(self).root,
                    i,
                    *final(r),
                    final(self).root,
                ),
            final(self).variables == old(self).variables,
    {
        let count = self.count_nodes();
        let index = random.gen_range(0..count);
        self.get_node_at_mut(index)
    }

    fn random_index_of_kind<R: Random>(&self, random: &mut R, kind: NodeKind, indices: &Vec<usize>) -> (r: Option<usize>)
        requires
            are_kind_indices(indices@, self.nodes(), kind),
        ensures
            final(random).source() == old(random).source(),
            r is None <==> indices@.len() == 0,
            r is None ==> *final(random) == *old(random),
            r matches Some(i) ==> i < self.nodes().len() && kind_of(self.nodes()[i as int]) == kind && exists|c: int, d: int|
                kind_position(self.nodes(), kind, c, d, i as int) && final(random).draws() == old(random).draws().push(
                    drawn(c, d),
                ),
    {
        if indices.len() == 0 {
            return None;
        }
        let k = random.gen_range(0..indices.len());
        proof {
            assert(are_kind_indices(indices@, self.nodes(), kind));
            assert(kind_position(self.nodes(), kind, indices@.len() as int, k as int, indices@[k as int] as int));
        }
        Some(indices[k])
    }

    /// A value node of the tree, picked at random.
    pub fn get_random_value_node<R: Random>(&self, random: &mut R) -> (r: &Node)
        requires
            exists|i: int| 0 <= i < self.nodes().len() && #[trigger] kind_of(self.nodes()[i]) == NodeKind::Value,
        ensures
            final(random).source() == old(random).source(),
            exists|c: int, d: int, i: int|
                kind_position(self.nodes(), NodeKind::Value, c, d, i) && final(random).draws() == old(random).draws().push(drawn(c, d)) && 0 <= i < self.nodes().len() && *r == self.nodes()[i],
            *r is Value,
    {
        let indices = self.get_value_node_indices();
        let index = self.random_index_of_kind(random, NodeKind::Value, &indices).unwrap();
        self.get_node_at(index)
    }

    /// A value node of the tree, picked at random, to be replaced through
    /// the returned reference.
    pub fn get_random_value_node_mut<R: Random>(&mut self, random: &mut R) -> (r: &mut Node)
        requires
            exists|i: int| 0 <= i < old(self).nodes().len() && #[trigger] kind_of(old(self).nodes()[i]) == NodeKind::Value,
        ensures
            final(random).source() == old(random).source(),
            exists|c: int, d: int, i: int|
                kind_position(old(self).nodes(), NodeKind::Value, c, d, i) && final(random).draws() == old(random).draws().push(drawn(c, d)) && 0 <= i < old(self).nodes().len() && *r == old(self).nodes()[i] && replaced_at(
                    old(self).root,
                    i,
                    *final(r),
                    final(self).root,
                ),
            *r is Value,
            final(self).variables == old(self).variables,
    {
        let indices = self.get_value_node_indices();
        let index = self.random_index_of_kind(random, NodeKind::Value, &indices).unwrap();
        self.get_node_at_mut(index)
    }

    /// An operator node of the tree, picked at random.
    pub fn get_random_operator_node<R: Random>(&self, random: &mut R) -> (r: &Node)
        requires
            exists|i: int| 0 <= i < self.nodes().len() && #[trigger] kind_of(self.nodes()[i]) == NodeKind::Operator,
        ensures
            final(random).source() == old(random).source(),
            exists|c: int, d: int, i: int|
                kind_position(self.nodes(), NodeKind::Operator, c, d, i) && final(random).draws() == old(random).draws().push(drawn(c, d)) && 0 <= i < self.nodes().len() && *r == self.nodes()[i],
            *r is Operator,
    {
        let indices = self.get_operator_node_indices();
        let index = self.random_index_of_kind(random, NodeKind::Operator, &indices).unwrap();
        self.get_node_at(index)
    }

    /// An operator node of the tree, picked at random, to be replaced
    /// through the returned reference.
    pub fn get_random_operator_node_mut<R: Random>(&mut self, random: &mut R) -> (r: &mut Node)
        requires
            exists|i: int| 0 <= i < old(self).nodes().len() && #[trigger] kind_of(old(self).nodes()[i]) == NodeKind::Operator,
        ensures
            final(random).source() == old(random).source(),
            exists|c: int, d: int, i: int|
                kind_position(old(self).nodes(), NodeKind::Operator, c, d, i) && final(random).draws() == old(random).draws().push(drawn(c, d)) && 0 <= i < old(self).nodes().len() && *r == old(self).nodes()[i] && replaced_at(
                    old(self).root,
                    i,
                    *final(r),
                    final(self).root,
                ),
            *r is Operator,
            final(self).variables == old(self).variables,
    {
        let indices = self.get_operator_node_indices();
        let index = self.random_index_of_kind(random, NodeKind::Operator, &indices).unwrap();
        self.get_node_at_mut(index)
    }

    /// A function node of the tree, picked at random.
    pub fn get_random_function_node<R: Random>(&self, random: &mut R) -> (r: &Node)
        requires
            exists|i: int| 0 <= i < self.nodes().len() && #[trigger] kind_of(self.nodes()[i]) == NodeKind::Function,
        ensures
            final(random).source() == old(random).source(),
            exists|c: int, d: int, i: int|
                kind_position(self.nodes(), NodeKind::Function, c, d, i) && final(random).draws() == old(random).draws().push(drawn(c, d)) && 0 <= i < self.nodes().len() && *r == self.nodes()[i],
            *r is Function,
    {
        let indices = self.get_function_node_indices();
        let index = self.random_index_of_kind(random, NodeKind::Function, &indices).unwrap();
        self.get_node_at(index)
    }

    /// A function node of the tree, picked at random, to be replaced
    /// through the returned reference.
    pub fn get_random_function_node_mut<R: Random>(&mut self, random: &mut R) -> (r: &mut Node)
        requires
            exists|i: int| 0 <= i < old(self).nodes().len() && #[trigger] kind_of(old(self).nodes()[i]) == NodeKind::Function,
        ensures
            final(random).source() == old(random).source(),
            exists|c: int, d: int, i: int|
                kind_position(old(self).nodes(), NodeKind::Function, c, d, i) && final(random).draws() == old(random).draws().push(drawn(c, d)) && 0 <= i < old(self).nodes().len() && *r == old(self).nodes()[i] && replaced_at(
                    old(self).root,
                    i,
                    *final(r),
                    final(self).root,
                ),
            *r is Function,
            final(self).variables == old(self).variables,
    {
        let indices = self.get_function_node_indices();
        let index = self.random_index_of_kind(random, NodeKind::Function, &indices).unwrap();
        self.get_node_at_mut(index)
    }

    /// An operator node of the tree, picked at random; `None` when there is
    /// none.
    pub fn find_random_operator_node<R: Random>(&self, random: &mut R) -> (r: Option<&Node>)
        ensures
            final(random).source() == old(random).source(),
            r is None <==> forall|i: int| 0 <= i < self.nodes().len() ==> !(#[trigger] self.nodes()[i] is Operator),
            r is None ==> *final(random) == *old(random),
            r matches Some(n) ==> *n is Operator && exists|c: int, d: int, i: int|
                kind_position(self.nodes(), NodeKind::Operator, c, d, i) && final(random).draws() == old(random).draws().push(drawn(c, d)) && 0 <= i < self.nodes().len() && *n == self.nodes()[i],
    {
        let indices = self.get_operator_node_indices();
        match self.random_index_of_kind(random, NodeKind::Operator, &indices) {
            Some(index) => Some(self.get_node_at(index)),
            None => {
                proof {
                    assert forall|i: int| 0 <= i < self.nodes().len() implies !(#[trigger] self.nodes()[i] is Operator) by {
                        if self.nodes()[i] is Operator {
                            assert(kind_of(self.nodes()[i]) == NodeKind::Operator);
                            assert(indices@.contains(i as usize));
                        }
                    }
                }
                None
            },
        }
    }

    /// A function node of the tree, picked at random; `None` when there is
    /// none.
    pub fn find_random_function_node<R: Random>(&self, random: &mut R) -> (r: Option<&Node>)
        ensures
            final(random).source() == old(random).source(),
            r is None <==> forall|i: int| 0 <= i < self.nodes().len() ==> !(#[trigger] self.nodes()[i] is Function),
            r is None ==> *final(random) == *old(random),
            r matches Some(n) ==> *n is Function && exists|c: int, d: int, i: int|
                kind_position(self.nodes(), NodeKind::Function, c, d, i) && final(random).draws() == old(random).draws().push(drawn(c, d)) && 0 <= i < self.nodes().len() && *n == self.nodes()[i],
    {
        let indices = self.get_function_node_indices();
        match self.random_index_of_kind(random, NodeKind::Function, &indices) {
            Some(index) => Some(self.get_node_at(index)),
            None => {
                proof {
                    assert forall|i: int| 0 <= i < self.nodes().len() implies !(#[trigger] self.nodes()[i] is Function) by {
                        if self.nodes()[i] is Function {
                            assert(kind_of(self.nodes()[i]) == NodeKind::Function);
                            assert(indices@.contains(i as usize));
                        }
                    }
                }
                None
            },
        }
    }
}

} // verus!

verus! {

impl ExpressionTree {
    /// An operator node of the tree, picked at random, to be replaced
    /// through the returned reference; `None` when there is none.
    pub fn find_random_operator_node_mut<R: Random>(&mut self, random: &mut R) -> (r: Option<&mut Node>)
        ensures
            final(random).source() == old(random).source(),
            r is None <==> forall|i: int| 0 <= i < old(self).nodes().len() ==> !(#[trigger] old(self).nodes()[i] is Operator),
            r is None ==> *final(self) == *old(self) && *final(random) == *old(random),
            r matches Some(n) ==> *n is Operator && exists|c: int, d: int, i: int|
                kind_position(old(self).nodes(), NodeKind::Operator, c, d, i) && final(random).draws() == old(random).draws().push(drawn(c, d)) && 0 <= i < old(self).nodes().len() && *n == old(self).nodes()[i] && replaced_at(
                    old(self).root,
                    i,
                    *final(n),
                    final(self).root,
                ),
            final(self).variables == old(self).variables,
    {
        let indices = self.get_operator_node_indices();
        match self.random_index_of_kind(random, NodeKind::Operator, &indices) {
            Some(index) => Some(self.get_node_at_mut(index)),
            None => {
                proof {
                    assert forall|i: int| 0 <= i < self.nodes().len() implies !(#[trigger] self.nodes()[i] is Operator) by {
                        if self.nodes()[i] is Operator {
                            assert(kind_of(self.nodes()[i]) == NodeKind::Operator);
                            assert(indices@.contains(i as usize));
                        }
                    }
                }
                None
            },
        }
    }
    /// An function node of the tree, picked at random, to be replaced
    /// through the returned reference; `None` when there is none.
    pub fn find_random_function_node_mut<R: Random>(&mut self, random: &mut R) -> (r: Option<&mut Node>)
        ensures
            final(random).source() == old(random).source(),
            r is None <==> forall|i: int| 0 <= i < old(self).nodes().len() ==> !(#[trigger] old(self).nodes()[i] is Function),
            r is None ==> *final(self) == *old(self) && *final(random) == *old(random),
            r matches Some(n) ==> *n is Function && exists|c: int, d: int, i: int|
                kind_position(old(self).nodes(), NodeKind::Function, c, d, i) && final(random).draws() == old(random).draws().push(drawn(c, d)) && 0 <= i < old(self).nodes().len() && *n == old(self).nodes()[i] && replaced_at(
                    old(self).root,
                    i,
                    *final(n),
                    final(self).root,
                ),
            final(self).variables == old(self).variables,
    {
        let indices = self.get_function_node_indices();
        match self.random_index_of_kind(random, NodeKind::Function, &indices) {
            Some(index) => Some(self.get_node_at_mut(index)),
            None => {
                proof {
                    assert forall|i: int| 0 <= i < self.nodes().len() implies !(#[trigger] self.nodes()[i] is Function) by {
                        if self.nodes()[i] is Function {
                            assert(kind_of(self.nodes()[i]) == NodeKind::Function);
                            assert(indices@.contains(i as usize));
                        }
                    }
                }
                None
            },
        }
    }

    fn random_operation_index<R: Random>(&self, random: &mut R) -> (r: Option<usize>)
        ensures
            final(random).source() == old(random).source(),
            r is None <==> forall|i: int| 0 <= i < self.nodes().len() ==> #[trigger] self.nodes()[i] is Value,
            r is None ==> *final(random) == *old(random),
            r matches Some(i) ==> i < self.nodes().len() && !(self.nodes()[i as int] is Value) && exists|c: int, d: int|
                operation_position(self.nodes(), c, d, i as int) && final(random).draws() == old(random).draws().push(
                    drawn(c, d),
                ),
    {
        let mut indices = self.get_operator_node_indices();
        let mut function_indices = self.get_function_node_indices();
        let ghost ops = indices@;
        let ghost fns = function_indices@;
        indices.append(&mut function_indices);
        if indices.len() == 0 {
            proof {
                assert forall|i: int| 0 <= i < self.nodes().len() implies #[trigger] self.nodes()[i] is Value by {
                    if self.nodes()[i] is Operator {
                        assert(kind_of(self.nodes()[i]) == NodeKind::Operator);
                        assert(ops.contains(i as usize));
                        let w = choose|w: int| 0 <= w < ops.len() && ops[w] == i as usize;
                        assert(indices@[w] == ops[w]);
                    }
                    if self.nodes()[i] is Function {
                        assert(kind_of(self.nodes()[i]) == NodeKind::Function);
                        assert(fns.contains(i as usize));
                        let w = choose|w: int| 0 <= w < fns.len() && fns[w] == i as usize;
                        assert(indices@[ops.len() + w] == fns[w]);
                    }
                }
            }
            return None;
        }
        let k = random.gen_range(0..indices.len());
        proof {
            assert(indices@ == ops + fns);
            assert(operation_position(self.nodes(), indices@.len() as int, k as int, indices@[k as int] as int));
            if k < ops.len() {
                assert(indices@[k as int] == ops[k as int]);
                assert(kind_of(self.nodes()[ops[k as int] as int]) == NodeKind::Operator);
            } else {
                assert(indices@[k as int] == fns[k - ops.len()]);
                assert(kind_of(self.nodes()[fns[k - ops.len()] as int]) == NodeKind::Function);
            }
        }
        Some(indices[k])
    }

    /// An operator or function node of the tree, picked at random; `None`
    /// when there is none.
    pub fn find_random_operation_node<R: Random>(&self, random: &mut R) -> (r: Option<&Node>)
        ensures
            final(random).source() == old(random).source(),
            r is None <==> forall|i: int| 0 <= i < self.nodes().len() ==> #[trigger] self.nodes()[i] is Value,
            r is None ==> *final(random) == *old(random),
            r matches Some(n) ==> !(*n is Value) && exists|c: int, d: int, i: int|
                operation_position(self.nodes(), c, d, i) && final(random).draws() == old(random).draws().push(drawn(c, d))
                    && 0 <= i < self.nodes().len() && *n == self.nodes()[i],
    {
        match self.random_operation_index(random) {
            Some(index) => Some(self.get_node_at(index)),
            None => None,
        }
    }

    /// An operator or function node of the tree, picked at random, to be
    /// replaced through the returned reference; `None` when there is none.
    pub fn find_random_operation_node_mut<R: Random>(&mut self, random: &mut R) -> (r: Option<&mut Node>)
        ensures
            final(random).source() == old(random).source(),
            r is None <==> forall|i: int| 0 <= i < old(self).nodes().len() ==> #[trigger] old(self).nodes()[i] is Value,
            r is None ==> *final(self) == *old(self) && *final(random) == *old(random),
            r matches Some(n) ==> !(*n is Value) && exists|c: int, d: int, i: int|
                operation_position(old(self).nodes(), c, d, i) && final(random).draws() == old(random).draws().push(drawn(c, d)) && 0 <= i < old(self).nodes().len() && *n == old(self).nodes()[i] && replaced_at(
                    old(self).root,
                    i,
                    *final(n),
                    final(self).root,
                ),
            final(self).variables == old(self).variables,
    {
        match self.random_operation_index(random) {
            Some(index) => Some(self.get_node_at_mut(index)),
            None => None,
        }
    }
}

} // verus!
