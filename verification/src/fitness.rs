//! Complexity of expression trees, and what measuring their error on input
//! data substitutes.
use vstd::prelude::*;
use crate::compute::{blocking_variable, compute_error_message, FitnessError};
use crate::input_data::InputData;
use crate::settings::Settings;
use crate::subs::{first_unknown, subs_tree_spec, SubsError};
use crate::types::{preorder, preorder_all, ExpressionTree, Node, Operation, OperationNode, TreeView, ValueNode};

verus! {

/// The complexity of a node: the complexity of its operation plus that of
/// its arguments; `vc` for a variable and `cc` for a constant.
pub open spec fn node_complexity(n: Node, vc: u32, cc: u32) -> nat
    decreases n, 1nat,
{
    match n {
        Node::Operator(o) => o.operation.complexity as nat + nodes_complexity(o.arguments@, vc, cc),
        Node::Function(f) => f.operation.complexity as nat + nodes_complexity(f.arguments@, vc, cc),
        Node::Value(ValueNode::Variable(_)) => vc as nat,
        Node::Value(ValueNode::Constant(_)) => cc as nat,
    }
}

/// The total complexity of a sequence of nodes.
pub open spec fn nodes_complexity(s: Seq<Node>, vc: u32, cc: u32) -> nat
    decreases s, 0nat,
{
    if s.len() == 0 {
        0
    } else {
        node_complexity(s[0], vc, cc) + nodes_complexity(s.subrange(1, s.len() as int), vc, cc)
    }
}

proof fn lemma_nodes_complexity_take(s: Seq<Node>, k: int, vc: u32, cc: u32)
    requires
        0 <= k < s.len(),
    ensures
        nodes_complexity(s.take(k + 1), vc, cc) == nodes_complexity(s.take(k), vc, cc)
            + node_complexity(s[k], vc, cc),
        nodes_complexity(s.take(k + 1), vc, cc) <= nodes_complexity(s, vc, cc),
    decreases k,
{
    let t = s.subrange(1, s.len() as int);
    if k == 0 {
        assert(s.take(1).subrange(1, 1) =~= Seq::<Node>::empty());
        assert(s.take(0) =~= Seq::<Node>::empty());
        lemma_nodes_complexity_le(s, 1, vc, cc);
    } else {
        lemma_nodes_complexity_take(t, k - 1, vc, cc);
        assert(s.take(k + 1).subrange(1, k + 1) =~= t.take(k));
        assert(s.take(k).subrange(1, k) =~= t.take(k - 1));
        assert(t[k - 1] == s[k]);
    }
}

proof fn lemma_nodes_complexity_le(s: Seq<Node>, k: int, vc: u32, cc: u32)
    requires
        0 <= k <= s.len(),
    ensures
        nodes_complexity(s.take(k), vc, cc) <= nodes_complexity(s, vc, cc),
    decreases k,
{
    if k > 0 {
        let t = s.subrange(1, s.len() as int);
        lemma_nodes_complexity_le(t, k - 1, vc, cc);
        assert(s.take(k).subrange(1, k) =~= t.take(k - 1));
    } else {
        assert(s.take(0) =~= Seq::<Node>::empty());
    }
}

/// The complexity of a node on its own: that of its operation, `vc` for a
/// variable, `cc` for a constant.
pub open spec fn own_complexity(n: Node, vc: u32, cc: u32) -> nat {
    match n {
        Node::Operator(o) => o.operation.complexity as nat,
        Node::Function(f) => f.operation.complexity as nat,
        Node::Value(ValueNode::Variable(_)) => vc as nat,
        Node::Value(ValueNode::Constant(_)) => cc as nat,
    }
}

/// The sum of the own complexities of `s`.
pub open spec fn own_complexities(s: Seq<Node>, vc: u32, cc: u32) -> nat
    decreases s.len(),
{
    if s.len() == 0 {
        0
    } else {
        own_complexity(s[0], vc, cc) + own_complexities(s.subrange(1, s.len() as int), vc, cc)
    }
}

proof fn lemma_own_complexities_concat(a: Seq<Node>, b: Seq<Node>, vc: u32, cc: u32)
    ensures
        own_complexities(a + b, vc, cc) == own_complexities(a, vc, cc) + own_complexities(b, vc, cc),
    decreases a.len(),
{
    if a.len() == 0 {
        assert(a + b =~= b);
    } else {
        lemma_own_complexities_concat(a.subrange(1, a.len() as int), b, vc, cc);
        assert((a + b).subrange(1, (a + b).len() as int) =~= a.subrange(1, a.len() as int) + b);
    }
}

proof fn lemma_own_complexities_single(n: Node, vc: u32, cc: u32)
    ensures
        own_complexities(seq![n], vc, cc) == own_complexity(n, vc, cc),
{
    assert(seq![n].subrange(1, 1) =~= Seq::<Node>::empty());
    assert(own_complexities(Seq::<Node>::empty(), vc, cc) == 0);
}

proof fn lemma_node_complexity_sums(n: Node, vc: u32, cc: u32)
    ensures
        node_complexity(n, vc, cc) == own_complexities(preorder(n), vc, cc),
    decreases n, 1nat,
{
    lemma_own_complexities_single(n, vc, cc);
    match n {
        Node::Operator(o) => {
            lemma_nodes_complexity_sums(o.arguments@, vc, cc);
            lemma_own_complexities_concat(seq![n], preorder_all(o.arguments@), vc, cc);
        },
        Node::Function(f) => {
            lemma_nodes_complexity_sums(f.arguments@, vc, cc);
            lemma_own_complexities_concat(seq![n], preorder_all(f.arguments@), vc, cc);
        },
        Node::Value(_) => {},
    }
}

proof fn lemma_nodes_complexity_sums(s: Seq<Node>, vc: u32, cc: u32)
    ensures
        nodes_complexity(s, vc, cc) == own_complexities(preorder_all(s), vc, cc),
    decreases s, 0nat,
{
    if s.len() > 0 {
        let rest = s.subrange(1, s.len() as int);
        lemma_node_complexity_sums(s[0], vc, cc);
        lemma_nodes_complexity_sums(rest, vc, cc);
        lemma_own_complexities_concat(preorder(s[0]), preorder_all(rest), vc, cc);
    }
}

/// The complexity of a tree is the sum of the complexities of its nodes,
/// each taken on its own.
pub proof fn law_complexity_sums_nodes(t: ExpressionTree, vc: u32, cc: u32)
    ensures
        node_complexity(t.root, vc, cc) == own_complexities(t.nodes(), vc, cc),
{
    lemma_node_complexity_sums(t.root, vc, cc);
}

impl ValueNode {
    pub fn get_complexity(&self, settings: &Settings) -> (r: u32)
        ensures
            r == node_complexity(
                Node::Value(*self),
                settings.variable_complexity,
                settings.constant_complexity,
            ),
    {
        match self {
            ValueNode::Variable(_) => settings.variable_complexity,
            ValueNode::Constant(_) => settings.constant_complexity,
        }
    }
}

/// The complexity of the arguments.
fn arguments_complexity(args: &Vec<Node>, settings: &Settings, Ghost(parent): Ghost<Node>) -> (r: u32)
    requires
        forall|i: int| 0 <= i < args@.len() ==> decreases_to!(parent => #[trigger] args@[i]),
        nodes_complexity(args@, settings.variable_complexity, settings.constant_complexity)
            <= u32::MAX,
    ensures
        r == nodes_complexity(args@, settings.variable_complexity, settings.constant_complexity),
    decreases parent, 0nat,
{
    let ghost vc = settings.variable_complexity;
    let ghost cc = settings.constant_complexity;
    let mut total: u32 = 0;
    let mut k: usize = 0;
    assert(args@.take(0) =~= Seq::<Node>::empty());
    while k < args.len()
        invariant
            0 <= k <= args@.len(),
            vc == settings.variable_complexity,
            cc == settings.constant_complexity,
            forall|i: int| 0 <= i < args@.len() ==> decreases_to!(parent => #[trigger] args@[i]),
            nodes_complexity(args@, vc, cc) <= u32::MAX,
            total == nodes_complexity(args@.take(k as int), vc, cc),
        decreases args@.len() - k,
    {
        proof {
            lemma_nodes_complexity_take(args@, k as int, vc, cc);
        }
        assert(decreases_to!(parent => args@[k as int]));
        let c = node_get_complexity(&args[k], settings);
        total = total + c;
        k = k + 1;
    }
    assert(args@.take(args@.len() as int) =~= args@);
    total
}

fn node_get_complexity(n: &Node, settings: &Settings) -> (r: u32)
    requires
        node_complexity(*n, settings.variable_complexity, settings.constant_complexity) <= u32::MAX,
    ensures
        r == node_complexity(*n, settings.variable_complexity, settings.constant_complexity),
    decreases *n, 1nat,
{
    match n {
        Node::Operator(o) => o.operation.get_complexity() + arguments_complexity(
            &o.arguments,
            settings,
            Ghost(*n),
        ),
        Node::Function(f) => f.operation.get_complexity() + arguments_complexity(
            &f.arguments,
            settings,
            Ghost(*n),
        ),
        Node::Value(v) => v.get_complexity(settings),
    }
}

/// The complexity of the arguments; `None` when it exceeds `u32::MAX`.
fn arguments_checked_complexity(args: &Vec<Node>, settings: &Settings, Ghost(parent): Ghost<Node>) -> (r: Option<u32>)
    requires
        forall|i: int| 0 <= i < args@.len() ==> decreases_to!(parent => #[trigger] args@[i]),
    ensures
        match r {
            Some(c) => c == nodes_complexity(args@, settings.variable_complexity, settings.constant_complexity),
            None => nodes_complexity(args@, settings.variable_complexity, settings.constant_complexity) > u32::MAX,
        },
    decreases parent, 0nat,
{
    let ghost vc = settings.variable_complexity;
    let ghost cc = settings.constant_complexity;
    let mut total: u32 = 0;
    let mut k: usize = 0;
    assert(args@.take(0) =~= Seq::<Node>::empty());
    while k < args.len()
        invariant
            0 <= k <= args@.len(),
            vc == settings.variable_complexity,
            cc == settings.constant_complexity,
            forall|i: int| 0 <= i < args@.len() ==> decreases_to!(parent => #[trigger] args@[i]),
            total == nodes_complexity(args@.take(k as int), vc, cc),
        decreases args@.len() - k,
    {
        proof {
            lemma_nodes_complexity_take(args@, k as int, vc, cc);
        }
        assert(decreases_to!(parent => args@[k as int]));
        let c = match node_checked_complexity(&args[k], settings) {
            Some(c) => c,
            None => {
                return None;
            },
        };
        total = match total.checked_add(c) {
            Some(t) => t,
            None => {
                return None;
            },
        };
        k = k + 1;
    }
    assert(args@.take(args@.len() as int) =~= args@);
    Some(total)
}

fn node_checked_complexity(n: &Node, settings: &Settings) -> (r: Option<u32>)
    ensures
        match r {
            Some(c) => c == node_complexity(*n, settings.variable_complexity, settings.constant_complexity),
            None => node_complexity(*n, settings.variable_complexity, settings.constant_complexity) > u32::MAX,
        },
    decreases *n, 1nat,
{
    match n {
        Node::Operator(o) => match arguments_checked_complexity(&o.arguments, settings, Ghost(*n)) {
            Some(c) => o.operation.get_complexity().checked_add(c),
            None => None,
        },
        Node::Function(f) => match arguments_checked_complexity(&f.arguments, settings, Ghost(*n)) {
            Some(c) => f.operation.get_complexity().checked_add(c),
            None => None,
        },
        Node::Value(v) => Some(v.get_complexity(settings)),
    }
}

impl Node {
    /// The complexity of the node; `None` when it exceeds `u32::MAX`.
    pub fn checked_complexity(&self, settings: &Settings) -> (r: Option<u32>)
        ensures
            match r {
                Some(c) => c == node_complexity(*self, settings.variable_complexity, settings.constant_complexity),
                None => node_complexity(*self, settings.variable_complexity, settings.constant_complexity)
                    > u32::MAX,
            },
    {
        node_checked_complexity(self, settings)
    }

    pub fn get_complexity(&self, settings: &Settings) -> (r: u32)
        requires
            node_complexity(*self, settings.variable_complexity, settings.constant_complexity)
                <= u32::MAX,
        ensures
            r == node_complexity(*self, settings.variable_complexity, settings.constant_complexity),
    {
        node_get_complexity(self, settings)
    }
}

impl<T: Operation> OperationNode<T> {
    /// The complexity of the operation plus that of the arguments.
    pub fn get_complexity(&self, settings: &Settings) -> (r: u32)
        requires
            self.operation.complexity_view() + nodes_complexity(
                self.arguments@,
                settings.variable_complexity,
                settings.constant_complexity,
            ) <= u32::MAX,
        ensures
            r == self.operation.complexity_view() + nodes_complexity(
                self.arguments@,
                settings.variable_complexity,
                settings.constant_complexity,
            ),
    {
        let ghost vc = settings.variable_complexity;
        let ghost cc = settings.constant_complexity;
        let mut total: u32 = self.operation.get_complexity();
        let mut k: usize = 0;
        assert(self.arguments@.take(0) =~= Seq::<Node>::empty());
        while k < self.arguments.len()
            invariant
                0 <= k <= self.arguments@.len(),
                vc == settings.variable_complexity,
                cc == settings.constant_complexity,
                self.operation.complexity_view() + nodes_complexity(self.arguments@, vc, cc)
                    <= u32::MAX,
                total == self.operation.complexity_view() + nodes_complexity(
                    self.arguments@.take(k as int),
                    vc,
                    cc,
                ),
            decreases self.arguments@.len() - k,
        {
            proof {
                lemma_nodes_complexity_take(self.arguments@, k as int, vc, cc);
            }
            let c = self.arguments[k].get_complexity(settings);
            total = total + c;
            k = k + 1;
        }
        assert(self.arguments@.take(self.arguments@.len() as int) =~= self.arguments@);
        total
    }
}

impl ExpressionTree {
    /// The complexity of the tree; `None` when it exceeds `u32::MAX`.
    pub fn checked_complexity(&self, settings: &Settings) -> (r: Option<u32>)
        ensures
            match r {
                Some(c) => c == node_complexity(self.root, settings.variable_complexity, settings.constant_complexity),
                None => node_complexity(self.root, settings.variable_complexity, settings.constant_complexity)
                    > u32::MAX,
            },
    {
        node_checked_complexity(&self.root, settings)
    }

    pub fn get_complexity(&self, settings: &Settings) -> (r: u32)
        requires
            node_complexity(self.root, settings.variable_complexity, settings.constant_complexity)
                <= u32::MAX,
        ensures
            r == node_complexity(self.root, settings.variable_complexity, settings.constant_complexity),
    {
        self.root.get_complexity(settings)
    }
}

} // verus!

verus! {

/// The bindings a row of input data gives: each input variable (all but
/// the last, the output) to its value in the row. A later binding of a name
/// overrides an earlier one, so the pairs run from the last input variable
/// back to the first.
pub open spec fn row_bindings(variables: Seq<String>, row: Seq<u64>) -> Seq<(Seq<char>, u64)> {
    let inputs: int = if variables.len() == 0 {
        0
    } else {
        variables.len() - 1
    };
    let m: int = if row.len() < inputs {
        row.len() as int
    } else {
        inputs
    };
    Seq::new(m as nat, |k: int| (variables[m - 1 - k]@, row[m - 1 - k]))
}

/// What went wrong measuring a tree on one row, as a message.
pub enum FitnessProblem {
    Subs(Seq<char>),
    Compute(Seq<char>),
}

pub open spec fn problem_of(e: FitnessError) -> FitnessProblem {
    match e {
        FitnessError::SubsError(s) => FitnessProblem::Subs(s.message@),
        FitnessError::ComputeError(c) => FitnessProblem::Compute(c.message@),
    }
}

/// What goes wrong substituting `pairs` into `t` and computing the result:
/// a bound name that is not a variable of the tree, else a variable left
/// unbound; `None` when the result computes.
pub open spec fn row_problem(t: TreeView, pairs: Seq<(Seq<char>, u64)>) -> Option<FitnessProblem> {
    match first_unknown(pairs, t.variables) {
        Some(v) => Some(FitnessProblem::Subs(SubsError::message_spec(v))),
        None => match blocking_variable(subs_tree_spec(t, pairs).root) {
            Some(v) => Some(FitnessProblem::Compute(compute_error_message(v))),
            None => None,
        },
    }
}

/// The first row, from `i` on, on which measuring `t` goes wrong, and what
/// goes wrong.
pub open spec fn first_failing_row_from(
    t: TreeView,
    variables: Seq<String>,
    rows: Seq<Vec<u64>>,
    i: int,
) -> Option<(int, FitnessProblem)>
    decreases rows.len() - i,
{
    if i < 0 || i >= rows.len() {
        None
    } else {
        match row_problem(t, row_bindings(variables, rows[i]@)) {
            Some(p) => Some((i, p)),
            None => first_failing_row_from(t, variables, rows, i + 1),
        }
    }
}

/// `r` is what substituting each row of input data into `t` gives: the
/// substituted trees, row by row, all of which compute; or what goes wrong
/// on the first row where something does.
pub open spec fn substituted_rows(
    t: TreeView,
    variables: Seq<String>,
    rows: Seq<Vec<u64>>,
    r: Result<Vec<ExpressionTree>, FitnessError>,
) -> bool {
    match r {
        Ok(trees) => first_failing_row_from(t, variables, rows, 0) is None && trees@.len() == rows.len()
            && forall|i: int|
            0 <= i < rows.len() ==> #[trigger] trees@[i]@ == subs_tree_spec(t, row_bindings(variables, rows[i]@)),
        Err(e) => first_failing_row_from(t, variables, rows, 0) matches Some((_, p)) && problem_of(e) == p,
    }
}

fn row_pairs(variables: &Vec<String>, row: &Vec<u64>) -> (r: Vec<(String, u64)>)
    ensures
        r@.map_values(|p: (String, u64)| (p.0@, p.1)) == row_bindings(variables@, row@),
{
    let inputs: usize = if variables.len() == 0 {
        0
    } else {
        variables.len() - 1
    };
    let m: usize = if row.len() < inputs {
        row.len()
    } else {
        inputs
    };
    let ghost expected = row_bindings(variables@, row@);
    let mut pairs: Vec<(String, u64)> = Vec::new();
    let mut k: usize = m;
    while k > 0
        invariant
            k <= m,
            m <= variables@.len(),
            m <= row@.len(),
            expected == row_bindings(variables@, row@),
            expected.len() == m,
            pairs@.len() == m - k,
            forall|j: int| 0 <= j < m - k ==> (#[trigger] pairs@[j]).0@ == expected[j].0 && pairs@[j].1 == expected[j].1,
        decreases k,
    {
        k = k - 1;
        pairs.push((variables[k].clone(), row[k]));
    }
    proof {
        assert(pairs@.map_values(|p: (String, u64)| (p.0@, p.1)) =~= expected);
    }
    pairs
}

impl ExpressionTree {
    /// The tree with each row of `input_data` substituted into it, row by
    /// row: what measuring its error on the data computes. Fails on the
    /// first row that binds a name the tree does not have, or that leaves a
    /// variable of the tree unbound.
    pub fn substitute_rows(&self, input_data: &InputData) -> (r: Result<Vec<ExpressionTree>, FitnessError>)
        ensures
            substituted_rows(self@, input_data.variables@, input_data.rows@, r),
    {
        let mut trees: Vec<ExpressionTree> = Vec::new();
        let mut i: usize = 0;
        while i < input_data.rows.len()
            invariant
                0 <= i <= input_data.rows@.len(),
                first_failing_row_from(self@, input_data.variables@, input_data.rows@, 0)
                    == first_failing_row_from(self@, input_data.variables@, input_data.rows@, i as int),
                trees@.len() == i,
                forall|j: int|
                    0 <= j < i ==> #[trigger] trees@[j]@ == subs_tree_spec(
                        self@,
                        row_bindings(input_data.variables@, input_data.rows@[j]@),
                    ),
            decreases input_data.rows@.len() - i,
        {
            let pairs = row_pairs(&input_data.variables, &input_data.rows[i]);
            match self.subs(&pairs) {
                Err(e) => {
                    return Err(FitnessError::SubsError(e));
                },
                Ok(t) => match t.compute_error() {
                    Some(e) => {
                        return Err(FitnessError::ComputeError(e));
                    },
                    None => {
                        trees.push(t);
                    },
                },
            }
            i = i + 1;
        }
        Ok(trees)
    }
}

} // verus!
