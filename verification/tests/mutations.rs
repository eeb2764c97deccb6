use symbolic_regression::mutations::{
    prepare_arguments, replace_leaf_mutation, replace_operation_mutation, replace_subtree_mutation,
    shift_leaf_mutation,
};
use symbolic_regression::random::MockRandom;
use symbolic_regression::settings::Settings;
use symbolic_regression::types::{ExpressionTree, Node, OperationNode, ValueNode};

/// New subtrees that record what they were made for: the constant equal to
/// the complexity asked for.
fn recording_node(_variables: &Vec<String>, complexity: u32) -> Node {
    mutation_constant(complexity as f64)
}

/// A new value: the constant 7.
fn recording_value(_variables: &Vec<String>) -> Node {
    mutation_constant(7.0)
}

/// A shifted constant: one more than the old one.
fn recording_shift(bits: u64) -> u64 {
    (f64::from_bits(bits) + 1.0).to_bits()
}

fn mutation_constant(x: f64) -> Node {
    Node::Value(ValueNode::Constant(x.to_bits()))
}

fn mutation_variable(name: &str) -> Node {
    Node::Value(ValueNode::Variable(String::from(name)))
}

fn function_node(settings: &Settings, name: &str, arguments: Vec<Node>) -> Node {
    Node::Function(OperationNode { operation: settings.find_function_by_name(name).unwrap(), arguments })
}

fn binary_node(settings: &Settings, name: &str, arguments: Vec<Node>) -> Node {
    Node::Operator(OperationNode { operation: settings.find_binary_operator_by_name(name).unwrap(), arguments })
}

/// sin(log(5, x + 10)), of complexity 12 under the default settings.
fn mutation_tree(settings: &Settings, variables: &[&str], leaf: Node) -> ExpressionTree {
    ExpressionTree {
        root: function_node(
            settings,
            "sin",
            vec![function_node(
                settings,
                "log",
                vec![mutation_constant(5.0), binary_node(settings, "+", vec![leaf, mutation_constant(10.0)])],
            )],
        ),
        variables: variables.iter().map(|s| String::from(*s)).collect(),
    }
}

#[test]
fn test_replace_operation_mutation_adds_arguments() {
    let settings = Settings::default();
    let mut expression_tree = mutation_tree(&settings, &["x"], mutation_variable("x"));
    // sin is picked, the complexity is not moved, and binary + replaces it.
    let performed = replace_operation_mutation(
        &mut expression_tree,
        &mut MockRandom::new_int(vec![1, 10, 0]),
        &settings,
        &recording_node,
    );
    let log = function_node(
        &settings,
        "log",
        vec![
            mutation_constant(5.0),
            binary_node(&settings, "+", vec![mutation_variable("x"), mutation_constant(10.0)]),
        ],
    );
    // 12 - 4 (sin) + 0 + 1 (+)
    let expected = binary_node(&settings, "+", vec![log, mutation_constant(9.0)]);
    assert!(performed);
    assert_eq!(expected, expression_tree.root);
    assert_eq!(vec![String::from("x")], expression_tree.variables);
}

#[test]
fn test_replace_operation_mutation_drops_arguments() {
    let settings = Settings::default();
    let mut expression_tree = mutation_tree(&settings, &["x"], mutation_variable("x"));
    // log is picked and sin replaces it; its first argument is dropped.
    let performed = replace_operation_mutation(
        &mut expression_tree,
        &mut MockRandom::new_int(vec![2, 10, 9]),
        &settings,
        &recording_node,
    );
    let plus = binary_node(&settings, "+", vec![mutation_variable("x"), mutation_constant(10.0)]);
    let expected = function_node(&settings, "sin", vec![function_node(&settings, "sin", vec![plus])]);
    assert!(performed);
    assert_eq!(expected, expression_tree.root);
}

#[test]
fn test_replace_operation_mutation_not_performed() {
    let settings = Settings::default();
    let mut expression_tree =
        ExpressionTree { root: mutation_variable("x"), variables: vec![String::from("x")] };
    let performed = replace_operation_mutation(
        &mut expression_tree,
        &mut MockRandom::new_int(vec![]),
        &settings,
        &recording_node,
    );
    assert!(!performed);
    assert_eq!(mutation_variable("x"), expression_tree.root);
}

#[test]
fn test_replace_subtree_mutation_made_for_remaining_complexity() {
    let settings = Settings::default();
    let mut expression_tree = mutation_tree(&settings, &["x"], mutation_variable("x"));
    // No shift of the complexity; the + node (complexity 3) is replaced by a
    // subtree made for 12 - 3.
    let performed = replace_subtree_mutation(
        &mut expression_tree,
        &mut MockRandom::new_int(vec![10, 3]),
        &settings,
        &recording_node,
    );
    let expected = function_node(
        &settings,
        "sin",
        vec![function_node(&settings, "log", vec![mutation_constant(5.0), mutation_constant(9.0)])],
    );
    assert!(performed);
    assert_eq!(expected, expression_tree.root);
}

#[test]
fn test_replace_subtree_mutation_lowest_complexity() {
    let settings = Settings::default();
    let mut expression_tree =
        ExpressionTree { root: mutation_variable("x"), variables: vec![String::from("x")] };
    // 1 - 1 - 10 is below zero, so the new subtree is made for 0.
    let performed = replace_subtree_mutation(
        &mut expression_tree,
        &mut MockRandom::new_int(vec![20, 0]),
        &settings,
        &recording_node,
    );
    assert!(performed);
    assert_eq!(mutation_constant(0.0), expression_tree.root);
}

#[test]
fn test_replace_leaf_mutation_puts_new_value() {
    let settings = Settings::default();
    let mut expression_tree = mutation_tree(&settings, &["x"], mutation_variable("x"));
    let performed = replace_leaf_mutation(
        &mut expression_tree,
        &mut MockRandom::new_int(vec![1]),
        &settings,
        &recording_value,
    );
    assert!(performed);
    assert_eq!(mutation_tree(&settings, &["x"], mutation_constant(7.0)), expression_tree);
}

#[test]
fn test_shift_leaf_mutation_picks_listed_variable() {
    let settings = Settings::default();
    let mut expression_tree = mutation_tree(&settings, &["x", "y"], mutation_variable("x"));
    let performed = shift_leaf_mutation(
        &mut expression_tree,
        &mut MockRandom::new_int(vec![1, 1]),
        &settings,
        &recording_shift,
    );
    assert!(performed);
    assert_eq!(mutation_tree(&settings, &["x", "y"], mutation_variable("y")), expression_tree);
}

#[test]
fn test_shift_leaf_mutation_moves_constant() {
    let settings = Settings::default();
    let mut expression_tree = mutation_tree(&settings, &["x"], mutation_variable("x"));
    let performed = shift_leaf_mutation(
        &mut expression_tree,
        &mut MockRandom::new_int(vec![2]),
        &settings,
        &recording_shift,
    );
    let plus = binary_node(&settings, "+", vec![mutation_variable("x"), mutation_constant(11.0)]);
    let expected = function_node(
        &settings,
        "sin",
        vec![function_node(&settings, "log", vec![mutation_constant(5.0), plus])],
    );
    assert!(performed);
    assert_eq!(expected, expression_tree.root);
}

#[test]
fn test_prepare_arguments_removes_random_arguments() {
    let mut arguments = vec![mutation_constant(1.0), mutation_constant(2.0), mutation_constant(3.0)];
    prepare_arguments(
        &mut MockRandom::new_int(vec![1, 5]),
        &recording_node,
        &vec![],
        &mut arguments,
        1,
        0,
    );
    assert_eq!(vec![mutation_constant(3.0)], arguments);
}

#[test]
fn test_prepare_arguments_appends_new_arguments() {
    let mut arguments = vec![mutation_constant(1.0)];
    prepare_arguments(&mut MockRandom::default(), &recording_node, &vec![], &mut arguments, 3, 4);
    assert_eq!(vec![mutation_constant(1.0), mutation_constant(4.0), mutation_constant(4.0)], arguments);
}

#[test]
fn test_prepare_arguments_keeps_matching_arguments() {
    let mut arguments = vec![mutation_constant(1.0), mutation_constant(2.0)];
    prepare_arguments(&mut MockRandom::new_int(vec![1]), &recording_node, &vec![], &mut arguments, 2, 4);
    assert_eq!(vec![mutation_constant(1.0), mutation_constant(2.0)], arguments);
}

/// Replays fixed cycles of indices, of floats and of floats in `0.0..1.0`,
/// as the model's own source of random numbers would give them.
struct ScriptedRandom {
    ints: Vec<usize>,
    floats: Vec<f64>,
    standards: Vec<f64>,
    next_int: usize,
    next_float: usize,
    next_standard: usize,
}

impl ScriptedRandom {
    fn new(ints: Vec<usize>, floats: Vec<f64>, standards: Vec<f64>) -> ScriptedRandom {
        ScriptedRandom { ints, floats, standards, next_int: 0, next_float: 0, next_standard: 0 }
    }

    fn gen_float(&mut self) -> f64 {
        let value = self.floats[self.next_float % self.floats.len()];
        self.next_float += 1;
        value
    }

    fn gen_float_standard(&mut self) -> f64 {
        let value = self.standards[self.next_standard % self.standards.len()];
        self.next_standard += 1;
        value
    }
}

impl ScriptedRandom {
    fn gen_range(&mut self, range: std::ops::Range<usize>) -> usize {
        let value = self.ints[self.next_int % self.ints.len()];
        self.next_int += 1;
        assert!(range.contains(&value), "The scripted index is out of range.");
        value
    }
}

/// Makes random subtrees the way the model does: an operator or a function
/// each with probability 2 / complexity, else a variable or a constant with
/// equal probability; a constant is moved by `(50 - i) * f` for a random
/// index `i` below 100 and a random `f` in `0.0..1.0`.
struct ModelFactory {
    settings: Settings,
    random: std::cell::RefCell<ScriptedRandom>,
}

impl ModelFactory {
    fn create_random(&self, random: &mut ScriptedRandom, variables: &Vec<String>, complexity: u32) -> (Node, u32) {
        let operation_probability = 2.0 / complexity as f64;
        let standard = random.gen_float_standard();
        if standard >= 0.0 && standard < operation_probability {
            let operator = self.settings.operators[random.gen_range(0..self.settings.operators.len())].clone();
            let (arguments, total) =
                self.create_arguments(random, variables, complexity, operator.complexity, operator.arguments_number);
            (Node::Operator(OperationNode { operation: operator, arguments }), total)
        } else if standard >= operation_probability && standard < operation_probability * 2.0 {
            let function = self.settings.functions[random.gen_range(0..self.settings.functions.len())].clone();
            let (arguments, total) =
                self.create_arguments(random, variables, complexity, function.complexity, function.arguments_number);
            (Node::Function(OperationNode { operation: function, arguments }), total)
        } else {
            self.create_random_value(random, variables)
        }
    }

    fn create_arguments(
        &self,
        random: &mut ScriptedRandom,
        variables: &Vec<String>,
        tree_complexity: u32,
        operation_complexity: u32,
        arguments_number: usize,
    ) -> (Vec<Node>, u32) {
        let mut node_complexity = operation_complexity;
        let mut tree_complexity = tree_complexity + operation_complexity;
        let mut arguments = vec![];
        for _ in 0..arguments_number {
            let (node, complexity) = self.create_random(random, variables, tree_complexity);
            node_complexity += complexity;
            tree_complexity += complexity;
            arguments.push(node);
        }
        (arguments, node_complexity)
    }

    fn create_random_value(&self, random: &mut ScriptedRandom, variables: &Vec<String>) -> (Node, u32) {
        if random.gen_float_standard() < 0.5 {
            let name = variables[random.gen_range(0..variables.len())].clone();
            (Node::Value(ValueNode::Variable(name)), self.settings.variable_complexity)
        } else {
            (mutation_constant(random.gen_float()), self.settings.constant_complexity)
        }
    }
}

impl ModelFactory {
    fn create_node(&self, variables: &Vec<String>, complexity: u32) -> Node {
        self.create_random(&mut self.random.borrow_mut(), variables, complexity).0
    }

    fn create_value(&self, variables: &Vec<String>) -> Node {
        self.create_random_value(&mut self.random.borrow_mut(), variables).0
    }

    fn shift_constant(&self, bits: u64) -> u64 {
        let mut random = self.random.borrow_mut();
        let shift = (50 - random.gen_range(0..100) as i32) as f64 * random.gen_float_standard();
        (f64::from_bits(bits) + shift).to_bits()
    }
}

#[test]
fn test_replace_leaf_mutation() {
    let settings = Settings::default();
    let mut expression_tree = mutation_tree(&settings, &["x"], mutation_variable("x"));
    // The draws of one shared generator, split here between the
    // mutation (the leaf) and the factory (the new value).
    let factory = ModelFactory {
        settings: Settings::default(),
        random: std::cell::RefCell::new(ScriptedRandom::new(vec![0], vec![], vec![0.45])),
    };
    let performed = replace_leaf_mutation(
        &mut expression_tree,
        &mut MockRandom::new_int(vec![0]),
        &settings,
        &|v: &Vec<String>| factory.create_value(v),
    );
    let expected_expression_tree = ExpressionTree {
        root: function_node(
            &settings,
            "sin",
            vec![function_node(
                &settings,
                "log",
                vec![
                    mutation_variable("x"),
                    binary_node(&settings, "+", vec![mutation_variable("x"), mutation_constant(10.0)]),
                ],
            )],
        ),
        variables: vec![String::from("x")],
    };
    assert!(performed);
    assert_eq!(expected_expression_tree, expression_tree);
}

#[test]
fn test_shift_leaf_mutation_variable() {
    let settings = Settings::default();
    let mut expression_tree = mutation_tree(&settings, &["x"], mutation_variable("x"));
    expression_tree.variables = vec![String::from("x1"), String::from("x2")];
    let performed = shift_leaf_mutation(
        &mut expression_tree,
        &mut MockRandom::new_int(vec![1, 1]),
        &settings,
        &recording_shift,
    );
    let expected_expression_tree = mutation_tree(&settings, &["x1", "x2"], mutation_variable("x2"));
    assert!(performed);
    assert_eq!(expected_expression_tree, expression_tree);
}

#[test]
fn test_shift_leaf_mutation_constant() {
    let settings = Settings::default();
    let mut expression_tree = mutation_tree(&settings, &["x"], mutation_variable("x"));
    // The draws of one shared generator, split here between the
    // mutation (the leaf) and the factory (the shift).
    let factory = ModelFactory {
        settings: Settings::default(),
        random: std::cell::RefCell::new(ScriptedRandom::new(vec![25], vec![], vec![0.5])),
    };
    let performed = shift_leaf_mutation(
        &mut expression_tree,
        &mut MockRandom::new_int(vec![0]),
        &settings,
        &|b: u64| factory.shift_constant(b),
    );
    let expected_expression_tree = ExpressionTree {
        root: function_node(
            &settings,
            "sin",
            vec![function_node(
                &settings,
                "log",
                vec![
                    mutation_constant(17.5),
                    binary_node(&settings, "+", vec![mutation_variable("x"), mutation_constant(10.0)]),
                ],
            )],
        ),
        variables: vec![String::from("x")],
    };
    assert!(performed);
    assert_eq!(expected_expression_tree, expression_tree);
}

#[test]
fn test_replace_operation_mutation_operator_to_function() {
    let settings = Settings::default();
    let mut expression_tree = mutation_tree(&settings, &["x"], mutation_variable("x"));
    let performed = replace_operation_mutation(
        &mut expression_tree,
        &mut MockRandom::new_int(vec![0, 10, 11, 0]),
        &settings,
        &recording_node,
    );
    let expected_expression_tree = ExpressionTree {
        root: function_node(
            &settings,
            "sin",
            vec![function_node(
                &settings,
                "log",
                vec![mutation_constant(5.0), function_node(&settings, "cos", vec![mutation_constant(10.0)])],
            )],
        ),
        variables: vec![String::from("x")],
    };
    assert!(performed);
    assert_eq!(expected_expression_tree, expression_tree);
}

#[test]
fn test_replace_operation_mutation_function_to_operator() {
    let settings = Settings::default();
    let mut expression_tree = mutation_tree(&settings, &["x"], mutation_variable("x"));
    // The draws of one shared generator, split here between the
    // mutation (node, shift, operation) and the factory (the new argument).
    let factory = ModelFactory {
        settings: Settings::default(),
        random: std::cell::RefCell::new(ScriptedRandom::new(vec![0], vec![-5.0], vec![0.43, 0.55])),
    };
    let performed = replace_operation_mutation(
        &mut expression_tree,
        &mut MockRandom::new_int(vec![1, 10, 2]),
        &settings,
        &|v: &Vec<String>, c: u32| factory.create_node(v, c),
    );
    let log = function_node(
        &settings,
        "log",
        vec![
            mutation_constant(5.0),
            binary_node(&settings, "+", vec![mutation_variable("x"), mutation_constant(10.0)]),
        ],
    );
    let expected_expression_tree = ExpressionTree {
        root: binary_node(&settings, "*", vec![log, mutation_constant(-5.0)]),
        variables: vec![String::from("x")],
    };
    assert!(performed);
    assert_eq!(expected_expression_tree, expression_tree);
}

fn single_node_tree(root: Node, variables: &[&str]) -> ExpressionTree {
    ExpressionTree { root, variables: variables.iter().map(|s| String::from(*s)).collect() }
}

#[test]
fn test_create_initial_expression_trees_takes_auxiliary_first() {
    let mut auxiliary = vec![
        single_node_tree(mutation_constant(1.0), &["x"]),
        single_node_tree(mutation_constant(2.0), &["x"]),
        single_node_tree(mutation_constant(3.0), &["x"]),
    ];
    let variables = vec![String::from("x")];
    let generation = symbolic_regression::generation::create_initial_expression_trees(
        &mut auxiliary,
        2,
        &recording_node,
        &variables,
    );
    assert_eq!(
        vec![single_node_tree(mutation_constant(1.0), &["x"]), single_node_tree(mutation_constant(2.0), &["x"])],
        generation
    );
    assert_eq!(vec![single_node_tree(mutation_constant(3.0), &["x"])], auxiliary);
}

#[test]
fn test_create_initial_expression_trees_fills_with_new_trees() {
    let mut auxiliary = vec![single_node_tree(mutation_variable("y"), &["y"])];
    let variables = vec![String::from("x"), String::from("y")];
    let generation = symbolic_regression::generation::create_initial_expression_trees(
        &mut auxiliary,
        3,
        &recording_node,
        &variables,
    );
    assert_eq!(
        vec![
            single_node_tree(mutation_variable("y"), &["y"]),
            single_node_tree(mutation_constant(0.0), &["x", "y"]),
            single_node_tree(mutation_constant(0.0), &["x", "y"]),
        ],
        generation
    );
    assert!(auxiliary.is_empty());
}

fn create_auxiliary_expression_trees(settings: &Settings) -> Vec<ExpressionTree> {
    vec![
        single_node_tree(mutation_variable("x"), &["x"]),
        single_node_tree(function_node(settings, "sin", vec![mutation_constant(5.0)]), &["x"]),
    ]
}

#[test]
fn test_create_initial_expression_trees_not_random() {
    let settings = Settings::default();
    let mut auxiliary = create_auxiliary_expression_trees(&settings);
    let expected_expression_trees = create_auxiliary_expression_trees(&settings);
    let actual_expression_trees = symbolic_regression::generation::create_initial_expression_trees(
        &mut auxiliary,
        2,
        &recording_node,
        &vec![String::from("x")],
    );
    assert_eq!(expected_expression_trees, actual_expression_trees);
}

#[test]
fn test_select_individuals_to_cross() {
    // A generation of 10 with 20% adapted and 10% unadapted individuals.
    let generation_len: u32 = 10;
    let adapted_number = (0.2_f32 * generation_len as f32) as usize;
    let unadapted_number = (0.1_f32 * generation_len as f32) as usize;
    let individuals = vec!["first", "second", "third", "fourth"];
    let positions = symbolic_regression::crossing::select_individuals_to_cross(
        &mut MockRandom::new_int(vec![3]),
        adapted_number,
        unadapted_number,
        generation_len as usize,
    );
    let individuals_to_cross: Vec<&str> = positions.iter().map(|&i| individuals[i]).collect();
    assert_eq!(vec!["first", "second", "fourth"], individuals_to_cross);
}
