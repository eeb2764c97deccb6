use std::collections::BTreeMap;
use symbolic_regression::compute::{ComputeError, FitnessError};
use symbolic_regression::crossing::{cross, select_individuals_to_cross};
use symbolic_regression::input_data::{transpose, Cell, InputData};
use symbolic_regression::mutations::remove_operation_mutation;
use symbolic_regression::random::MockRandom;
use symbolic_regression::settings::Settings;
use symbolic_regression::subs::SubsError;
use symbolic_regression::types::{ExpressionTree, Node, OperationNode, ValueNode};
use symbolic_regression::utils::IdGenerator;

fn read(s: &str) -> Option<u64> {
    s.parse::<f64>().ok().map(f64::to_bits)
}

fn num(x: f64) -> u64 {
    x.to_bits()
}

fn nums(xs: &[f64]) -> Vec<u64> {
    xs.iter().map(|x| x.to_bits()).collect()
}

fn constant(x: f64) -> Node {
    Node::Value(ValueNode::Constant(num(x)))
}

fn variable(name: &str) -> Node {
    Node::Value(ValueNode::Variable(String::from(name)))
}

fn strings(names: &[&str]) -> Vec<String> {
    names.iter().map(|s| String::from(*s)).collect()
}

// Substitution.

fn create_tree_to_subs(settings: &Settings) -> ExpressionTree {
    ExpressionTree {
        root: Node::Operator(OperationNode {
            operation: settings.find_binary_operator_by_name("+").unwrap(),
            arguments: vec![
                Node::Operator(OperationNode {
                    operation: settings.find_binary_operator_by_name("-").unwrap(),
                    arguments: vec![variable("x1"), constant(1.0)],
                }),
                variable("x2"),
            ],
        }),
        variables: strings(&["x1", "x2"]),
    }
}

#[test]
fn subs_test_subs_panics_with_wrong_variable() {
    let settings = Settings::default();
    let tree = create_tree_to_subs(&settings);
    let expected_error =
        SubsError { message: String::from(r#"Expression tree does not contain "y" variable."#) };
    match tree.subs(&vec![(String::from("y"), num(2.0))]) {
        Ok(_) => panic!("Expected {:?}, but Ok(()) was received.", expected_error),
        Err(actual_error) => assert_eq!(expected_error, actual_error),
    }
}

#[test]
fn subs_test_subs_x1_variable() -> Result<(), SubsError> {
    let settings = Settings::default();
    let tree = create_tree_to_subs(&settings);
    let expected_tree = ExpressionTree {
        root: Node::Operator(OperationNode {
            operation: settings.find_binary_operator_by_name("+").unwrap(),
            arguments: vec![
                Node::Operator(OperationNode {
                    operation: settings.find_binary_operator_by_name("-").unwrap(),
                    arguments: vec![constant(2.0), constant(1.0)],
                }),
                variable("x2"),
            ],
        }),
        variables: strings(&["x2"]),
    };
    let actual_tree = tree.subs(&vec![(String::from("x1"), num(2.0))])?;
    assert_eq!(expected_tree, actual_tree);
    Ok(())
}

/// (x1 - 1) + sin(x1) * x2, or with `x1` bound as given.
fn create_tree_with_sin_of_x1(settings: &Settings, x1: Node, variables: &[&str]) -> ExpressionTree {
    ExpressionTree {
        root: Node::Operator(OperationNode {
            operation: settings.find_binary_operator_by_name("+").unwrap(),
            arguments: vec![
                Node::Operator(OperationNode {
                    operation: settings.find_binary_operator_by_name("-").unwrap(),
                    arguments: vec![x1.clone(), constant(1.0)],
                }),
                Node::Operator(OperationNode {
                    operation: settings.find_binary_operator_by_name("*").unwrap(),
                    arguments: vec![
                        Node::Function(OperationNode {
                            operation: settings.find_function_by_name("sin").unwrap(),
                            arguments: vec![x1],
                        }),
                        variable("x2"),
                    ],
                }),
            ],
        }),
        variables: strings(variables),
    }
}

#[test]
fn expression_tree_test_subs_x1_variable() {
    let settings = Settings::default();
    let tree = create_tree_with_sin_of_x1(&settings, variable("x1"), &["x1", "x2"]);
    let expected_tree = create_tree_with_sin_of_x1(&settings, constant(2.0), &["x2"]);
    let actual_tree = tree.subs(&vec![(String::from("x1"), num(2.0))]).unwrap();
    assert_eq!(expected_tree, actual_tree);
}

#[test]
fn lib_test_subs_x1_variable() {
    let settings = Settings::default();
    // x1 * 1 + sin(x1) * x2
    let tree_with = |x1: Node| Node::Operator(OperationNode {
        operation: settings.find_binary_operator_by_name("+").unwrap(),
        arguments: vec![
            Node::Operator(OperationNode {
                operation: settings.find_binary_operator_by_name("*").unwrap(),
                arguments: vec![x1.clone(), constant(1.0)],
            }),
            Node::Operator(OperationNode {
                operation: settings.find_binary_operator_by_name("*").unwrap(),
                arguments: vec![
                    Node::Function(OperationNode {
                        operation: settings.find_function_by_name("sin").unwrap(),
                        arguments: vec![x1],
                    }),
                    variable("x2"),
                ],
            }),
        ],
    });
    let tree = ExpressionTree { root: tree_with(variable("x1")), variables: strings(&["x1", "x2"]) };
    let new_tree = tree.subs(&vec![(String::from("x1"), num(2.0))]).unwrap();
    assert_eq!(tree_with(constant(2.0)), new_tree.root);
}

#[test]
fn test_subs_nothing_keeps_the_tree() -> Result<(), SubsError> {
    let settings = Settings::default();
    let tree = create_tree_to_subs(&settings);
    assert_eq!(tree, tree.subs(&vec![])?);
    Ok(())
}

#[test]
fn test_subs_all_variables_then_computes() -> Result<(), SubsError> {
    let settings = Settings::default();
    let tree = create_tree_to_subs(&settings);
    assert!(tree.compute_error().is_some());
    let bound =
        tree.subs(&vec![(String::from("x2"), num(4.0)), (String::from("x1"), num(3.0))])?;
    assert!(bound.variables.is_empty());
    assert_eq!(None, bound.compute_error());
    Ok(())
}

#[test]
fn test_subs_first_binding_counts() -> Result<(), SubsError> {
    let settings = Settings::default();
    let tree = create_tree_to_subs(&settings);
    let bound =
        tree.subs(&vec![(String::from("x2"), num(4.0)), (String::from("x2"), num(5.0))])?;
    assert_eq!(&constant(4.0), bound.get_node_at(4));
    Ok(())
}

// Computing.

#[test]
fn test_compute_error_names_the_first_variable() {
    let settings = Settings::default();
    let tree = create_tree_to_subs(&settings);
    assert_eq!(
        Some(ComputeError { message: String::from(r#"The "x1" variable is not a constant."#) }),
        tree.compute_error()
    );
    assert_eq!(None, constant(3.0).compute_error());
    assert_eq!(
        String::from(r#"The "x" variable is not a constant."#),
        ComputeError::new("x").message
    );
}

// Crossing.

fn create_cross_tree1(settings: &Settings) -> ExpressionTree {
    ExpressionTree {
        root: Node::Function(OperationNode {
            operation: settings.find_function_by_name("sin").unwrap(),
            arguments: vec![Node::Operator(OperationNode {
                operation: settings.find_binary_operator_by_name("+").unwrap(),
                arguments: vec![variable("x1"), variable("x2")],
            })],
        }),
        variables: strings(&["x1", "x2"]),
    }
}

fn create_cross_tree2(settings: &Settings) -> ExpressionTree {
    ExpressionTree {
        root: Node::Function(OperationNode {
            operation: settings.find_function_by_name("cos").unwrap(),
            arguments: vec![Node::Operator(OperationNode {
                operation: settings.find_binary_operator_by_name("-").unwrap(),
                arguments: vec![variable("x2"), constant(5.0)],
            })],
        }),
        variables: strings(&["x1", "x2"]),
    }
}

#[test]
fn crossing_test_cross() {
    let settings = Settings::default();
    let expression_tree1 = create_cross_tree1(&settings);
    let expression_tree2 = create_cross_tree2(&settings);
    let expected_expression_tree = ExpressionTree {
        root: Node::Function(OperationNode {
            operation: settings.find_function_by_name("sin").unwrap(),
            arguments: vec![Node::Operator(OperationNode {
                operation: settings.find_binary_operator_by_name("+").unwrap(),
                arguments: vec![
                    variable("x1"),
                    Node::Operator(OperationNode {
                        operation: settings.find_binary_operator_by_name("-").unwrap(),
                        arguments: vec![variable("x2"), constant(5.0)],
                    }),
                ],
            })],
        }),
        variables: strings(&["x1", "x2"]),
    };
    let actual_expression_tree =
        cross(&expression_tree1, &expression_tree2, &mut MockRandom::new_int(vec![1, 3]));
    assert_eq!(expected_expression_tree, actual_expression_tree);
}

#[test]
fn test_cross_keeps_both_parents() {
    let settings = Settings::default();
    let expression_tree1 = create_cross_tree1(&settings);
    let expression_tree2 = create_cross_tree2(&settings);
    let child = cross(&expression_tree1, &expression_tree2, &mut MockRandom::new_int(vec![0, 0]));
    assert_eq!(expression_tree2.root, child.root);
    assert_eq!(expression_tree1.variables, child.variables);
    assert_eq!(create_cross_tree1(&settings), expression_tree1);
}

// Mutations.

fn create_mutation_tree(settings: &Settings) -> ExpressionTree {
    ExpressionTree {
        root: Node::Function(OperationNode {
            operation: settings.find_function_by_name("sin").unwrap(),
            arguments: vec![Node::Function(OperationNode {
                operation: settings.find_function_by_name("log").unwrap(),
                arguments: vec![
                    constant(5.0),
                    Node::Operator(OperationNode {
                        operation: settings.find_binary_operator_by_name("+").unwrap(),
                        arguments: vec![variable("x"), constant(10.0)],
                    }),
                ],
            })],
        }),
        variables: strings(&["x"]),
    }
}

#[test]
fn test_remove_operation_mutation() {
    let settings = Settings::default();
    let mut expression_tree = create_mutation_tree(&settings);
    let performed = remove_operation_mutation(
        &mut expression_tree,
        &mut MockRandom::new_int(vec![2, 0]),
        &settings,
    );
    let expected_expression_tree = ExpressionTree {
        root: Node::Function(OperationNode {
            operation: settings.find_function_by_name("sin").unwrap(),
            arguments: vec![constant(5.0)],
        }),
        variables: strings(&["x"]),
    };
    assert!(performed);
    assert_eq!(expected_expression_tree, expression_tree);
}

#[test]
fn test_remove_operation_mutation_not_performed() {
    let settings = Settings::default();
    let mut expression_tree = ExpressionTree { root: variable("x"), variables: strings(&["x"]) };
    let performed = remove_operation_mutation(
        &mut expression_tree,
        &mut MockRandom::new_int(vec![]),
        &settings,
    );
    assert!(!performed);
    assert_eq!(ExpressionTree { root: variable("x"), variables: strings(&["x"]) }, expression_tree);
}

#[test]
fn test_remove_operation_mutation_shrinks_the_tree() {
    let settings = Settings::default();
    let mut expression_tree = create_mutation_tree(&settings);
    let before = expression_tree.count_nodes();
    assert!(remove_operation_mutation(
        &mut expression_tree,
        &mut MockRandom::new_int(vec![0, 1]),
        &settings,
    ));
    assert!(expression_tree.count_nodes() < before);
    assert_eq!(&constant(10.0), expression_tree.get_node_at(3));
    assert_eq!(4, expression_tree.count_nodes());
}

// Complexity.

fn create_complexity_settings() -> Settings {
    let mut settings = Settings::default();
    settings.variable_complexity = 2;
    settings.constant_complexity = 1;
    settings
}

fn check_value_node_get_complexity() {
    let settings = create_complexity_settings();
    assert_eq!(2, ValueNode::Variable(String::from("x")).get_complexity(&settings));
    assert_eq!(1, ValueNode::Constant(num(1.0)).get_complexity(&settings));
}

fn check_operation_node_get_complexity() {
    let settings = create_complexity_settings();
    let operation_node = OperationNode {
        operation: settings.find_binary_operator_by_name("+").unwrap(),
        arguments: vec![variable("x"), constant(1.0)],
    };
    assert_eq!(4, operation_node.get_complexity(&settings));
}

fn check_node_get_complexity() {
    let settings = create_complexity_settings();
    let node = Node::Function(OperationNode {
        operation: settings.find_function_by_name("log").unwrap(),
        arguments: vec![variable("x"), constant(1.0)],
    });
    assert_eq!(7, node.get_complexity(&settings));
}

fn check_expression_tree_get_complexity() {
    let settings = create_complexity_settings();
    let expression_tree = ExpressionTree {
        root: Node::Function(OperationNode {
            operation: settings.find_function_by_name("log").unwrap(),
            arguments: vec![variable("x"), constant(1.0)],
        }),
        variables: strings(&["x"]),
    };
    assert_eq!(7, expression_tree.get_complexity(&settings));
}

#[test]
fn fitness_test_value_node_get_complexity() {
    check_value_node_get_complexity();
}

#[test]
fn fitness_test_operation_node_get_complexity() {
    check_operation_node_get_complexity();
}

#[test]
fn fitness_test_node_get_complexity() {
    check_node_get_complexity();
}

#[test]
fn fitness_test_expression_tree_get_complexity() {
    check_expression_tree_get_complexity();
}

fn create_expression_tree_to_get_fitness(settings: &Settings) -> ExpressionTree {
    ExpressionTree {
        root: Node::Operator(OperationNode {
            operation: settings.find_binary_operator_by_name("+").unwrap(),
            arguments: vec![
                constant(0.5),
                Node::Operator(OperationNode {
                    operation: settings.find_binary_operator_by_name("+").unwrap(),
                    arguments: vec![variable("x1"), variable("x2")],
                }),
            ],
        }),
        variables: strings(&["x1", "x2"]),
    }
}

fn create_input_data_to_get_fitness() -> InputData {
    InputData::new(
        strings(&["x1", "x2", "y"]),
        vec![nums(&[1.0, 2.0, 3.0]), nums(&[1.0, -1.0, 0.0]), nums(&[3.0, 3.0, 6.0])],
    )
    .unwrap()
}

#[test]
fn test_expression_tree_get_error_subs_error() {
    let settings = create_complexity_settings();
    let expression_tree = create_expression_tree_to_get_fitness(&settings);
    let mut input_data = create_input_data_to_get_fitness();
    input_data.variables[0] = String::from("z");
    let expected_error = FitnessError::SubsError(SubsError {
        message: String::from(r#"Expression tree does not contain "z" variable."#),
    });
    match expression_tree.substitute_rows(&input_data) {
        Ok(trees) => panic!("Expected {:?}, but {:?} was received.", expected_error, trees),
        Err(err) => assert_eq!(expected_error, err),
    };
}

#[test]
fn test_expression_tree_get_error_compute_error() {
    let settings = create_complexity_settings();
    let expression_tree = create_expression_tree_to_get_fitness(&settings);
    let mut input_data = create_input_data_to_get_fitness();
    input_data.variables.remove(0);
    for row in &mut input_data.rows {
        row.remove(0);
    }
    let expected_error = FitnessError::ComputeError(ComputeError {
        message: String::from(r#"The "x1" variable is not a constant."#),
    });
    match expression_tree.substitute_rows(&input_data) {
        Ok(trees) => panic!("Expected {:?}, but {:?} was received.", expected_error, trees),
        Err(err) => assert_eq!(expected_error, err),
    };
}

#[test]
fn test_substitute_rows_gives_one_tree_per_row() {
    let settings = create_complexity_settings();
    let expression_tree = create_expression_tree_to_get_fitness(&settings);
    let input_data = create_input_data_to_get_fitness();
    let trees = expression_tree.substitute_rows(&input_data).unwrap();
    assert_eq!(3, trees.len());
    assert_eq!(&constant(-1.0), trees[1].get_node_at(4));
    assert_eq!(&constant(3.0), trees[2].get_node_at(3));
    assert!(trees.iter().all(|t| t.variables.is_empty() && t.compute_error().is_none()));
}

// Output.

#[test]
fn output_test_create_output() {
    check_create_output_of_sin_pow_log();
}

#[test]
fn expression_tree_test_create_output() {
    check_create_output_of_sin_pow_log();
}

fn check_create_output_of_sin_pow_log() {
    let settings = Settings::default();
    let e = std::f64::consts::E;
    let tree = ExpressionTree {
        root: Node::Function(OperationNode {
            operation: settings.find_function_by_name("sin").unwrap(),
            arguments: vec![Node::Operator(OperationNode {
                operation: settings.find_binary_operator_by_name("^").unwrap(),
                arguments: vec![
                    constant(e + 0.0001),
                    Node::Function(OperationNode {
                        operation: settings.find_function_by_name("log").unwrap(),
                        arguments: vec![constant(e - 0.0001), variable("x")],
                    }),
                ],
            })],
        }),
        variables: strings(&["x"]),
    };
    let expected_tree = ExpressionTree {
        root: Node::Function(OperationNode {
            operation: settings.find_function_by_name("sin").unwrap(),
            arguments: vec![Node::Function(OperationNode {
                operation: settings.find_function_by_name("exp").unwrap(),
                arguments: vec![Node::Function(OperationNode {
                    operation: settings.find_function_by_name("ln").unwrap(),
                    arguments: vec![variable("x")],
                })],
            })],
        }),
        variables: strings(&["x"]),
    };
    assert_eq!(expected_tree, tree.create_output(&settings));
}

#[test]
fn test_parse_then_output_gives_back_the_functions() {
    let settings = Settings::default();
    let tree = ExpressionTree::parse("sqrt(x) + exp(y) * ln(x)", &settings, &read).unwrap();
    let output = tree.create_output(&settings);
    let again = ExpressionTree::parse("sqrt(x) + exp(y) * ln(x)", &Settings {
        operators: Settings::get_default_operators(),
        functions: Settings::get_default_functions(),
        converters: vec![],
        variable_complexity: 1,
        constant_complexity: 1,
    }, &read)
    .unwrap();
    assert_eq!(again, output);
}

// Input data.

#[test]
fn test_new_valid() {
    let actual_input_data = InputData::new(
        strings(&["x1", "x2", "y"]),
        vec![nums(&[1.0, 2.0, 3.0]), nums(&[1.0, -1.0, 0.0])],
    )
    .unwrap();
    let expected_input_data = InputData {
        variables: strings(&["x1", "x2", "y"]),
        rows: vec![nums(&[1.0, 2.0, 3.0]), nums(&[1.0, -1.0, 0.0])],
    };
    assert_eq!(expected_input_data, actual_input_data);
}

#[test]
fn test_new_invalid_not_enough_variables() {
    match InputData::new(strings(&["x"]), vec![nums(&[1.0]), nums(&[2.0])]) {
        Ok(input_data) => panic!("Expected an error, but {:?} was received.", input_data),
        Err(actual_error) => assert_eq!(
            r#"The "InputData" struct must contain at least two variables, of which the last variable is output one."#,
            actual_error.to_string()
        ),
    };
}

#[test]
fn test_new_invalid_duplicate_variable() {
    match InputData::new(
        strings(&["x1", "x2", "x1"]),
        vec![nums(&[1.0, 2.0, 3.0]), nums(&[1.0, -1.0, 0.0]), nums(&[3.0, 3.0, 6.0])],
    ) {
        Ok(input_data) => panic!("Expected an error, but {:?} was received.", input_data),
        Err(actual_error) => {
            assert_eq!(r#"The variable "x1" occurs 2 times."#, actual_error.to_string())
        }
    }
}

#[test]
fn test_new_wrong_row() {
    match InputData::new(
        strings(&["x1", "x2", "y"]),
        vec![nums(&[1.0, 2.0, 3.0]), nums(&[1.0, 0.0]), nums(&[3.0, 3.0, 6.0])],
    ) {
        Ok(input_data) => panic!("Expected an error, but {:?} was received.", input_data),
        Err(actual_error) => assert_eq!(
            "The row at index 1 contains 2 values, but must contain 3.",
            actual_error.to_string()
        ),
    };
}

#[test]
fn test_new_accepts_longer_rows() {
    let input_data =
        InputData::new(strings(&["x", "y"]), vec![nums(&[1.0, 2.0, 3.0])]).unwrap();
    assert_eq!(3, input_data.rows[0].len());
}

fn columns_from_json(json: &str) -> Vec<(String, Vec<u64>)> {
    let map: BTreeMap<String, Vec<f64>> = serde_json::from_str(json).unwrap();
    map.into_iter().map(|(name, values)| (name, nums(&values))).collect()
}

fn rows_form_from_json(json: &str) -> (Vec<String>, Vec<Vec<u64>>) {
    let value: serde_json::Value = serde_json::from_str(json).unwrap();
    let variables = value["variables"]
        .as_array()
        .unwrap()
        .iter()
        .map(|v| String::from(v.as_str().unwrap()))
        .collect();
    let rows = value["rows"]
        .as_array()
        .unwrap()
        .iter()
        .map(|row| row.as_array().unwrap().iter().map(|x| num(x.as_f64().unwrap())).collect())
        .collect();
    (variables, rows)
}

#[test]
fn test_from_json() {
    let expected_input_data = InputData {
        variables: strings(&["x1", "x2", "y"]),
        rows: vec![nums(&[1.0, 2.0, 3.0]), nums(&[1.0, -1.0, 0.0])],
    };
    let (variables, rows) = rows_form_from_json(
        r#"{
            "variables": ["x1", "x2", "y"],
            "rows": [
                [1, 2, 3],
                [1.0, -1.0, 0]
            ]
        }"#,
    );
    assert_eq!(expected_input_data, InputData::new(variables, rows).unwrap());
    let columns = columns_from_json(
        r#"{
            "x1": [1, 1.0],
            "x2": [2, -1.0],
            "y": [3, 0]
        }"#,
    );
    assert_eq!(expected_input_data, InputData::from_columns(columns).unwrap());
}

#[test]
fn test_from_json_input_data_form_invalid() {
    let (variables, rows) = rows_form_from_json(
        r#"{
            "variables": ["x1", "x2", "y"],
            "rows": [
                [1, 2, 3],
                [1.0, 0],
                [3.0, 3.0, 6.0]
            ]
        }"#,
    );
    match InputData::new(variables, rows) {
        Ok(input_data) => panic!("Expected an error, but {:?} was received.", input_data),
        Err(actual_error) => assert_eq!(
            "The row at index 1 contains 2 values, but must contain 3.",
            actual_error.to_string()
        ),
    }
}

#[test]
fn test_from_json_variables_map_form_invalid() {
    let columns = columns_from_json(
        r#"{
            "x1": [1, 1.0, 3.0],
            "x2": [2, 3.0],
            "y": [3, 0, 6.0]
        }"#,
    );
    match InputData::from_columns(columns) {
        Ok(input_data) => panic!("Expected an error, but {:?} was received.", input_data),
        Err(actual_error) => assert_eq!(
            r#"The variable "x2" contains 2 values, but must contain 3."#,
            actual_error.to_string()
        ),
    }
}

fn text(s: &str) -> Cell {
    Cell::Text(String::from(s))
}

#[test]
fn test_from_worksheet_range() {
    let cells = vec![
        vec![text("x1"), text("x2"), text("y")],
        vec![Cell::Number(num(1.0)), Cell::Number(num(2.0)), text("3")],
        vec![Cell::Number(num(1.0)), Cell::Number(num(-1.0)), Cell::Number(num(0.0))],
    ];
    let expected_input_data = InputData {
        variables: strings(&["x1", "x2", "y"]),
        rows: vec![nums(&[1.0, 2.0, 3.0]), nums(&[1.0, -1.0, 0.0])],
    };
    assert_eq!(expected_input_data, InputData::from_worksheet_range(cells, &read).unwrap());
}

#[test]
fn test_from_worksheet_range_error() {
    let cases: Vec<(&str, Vec<Vec<Cell>>)> = vec![
        ("The worksheet must contain a rows.", vec![]),
        (
            "Wrong cell type in the variables header at 1 index.",
            vec![vec![text("x1"), Cell::Number(num(1.0)), text("y")]],
        ),
        (
            "Wrong cell type at index 1 in the row at index 1.",
            vec![
                vec![text("x1"), text("x2"), text("y")],
                vec![Cell::Number(num(1.0)), Cell::Number(num(2.0)), Cell::Number(num(3.0))],
                vec![Cell::Number(num(1.0)), Cell::Other, Cell::Number(num(0.0))],
            ],
        ),
        (
            r#"The "InputData" struct must contain at least two variables, of which the last variable is output one."#,
            vec![vec![text("x1")], vec![Cell::Number(num(1.0))]],
        ),
    ];
    for (error_message, cells) in cases {
        match InputData::from_worksheet_range(cells, &read) {
            Ok(input_data) => panic!("Expected an error, but {:?} was received.", input_data),
            Err(actual_error) => assert_eq!(error_message, actual_error.to_string()),
        }
    }
}

#[test]
fn test_from_worksheet_range_unreadable_text() {
    let cells = vec![vec![text("x"), text("y")], vec![text("one"), text("2")]];
    match InputData::from_worksheet_range(cells, &read) {
        Ok(input_data) => panic!("Expected an error, but {:?} was received.", input_data),
        Err(actual_error) => assert_eq!(
            "Wrong cell type at index 0 in the row at index 0.",
            actual_error.to_string()
        ),
    }
}

#[test]
fn test_transpose() {
    let actual_vec = transpose(vec![vec![1, 2], vec![3, 4], vec![5, 6]]);
    let expected_vec = vec![vec![1, 3, 5], vec![2, 4, 6]];
    assert_eq!(expected_vec, actual_vec);
}

#[test]
fn test_transpose_twice_gives_back_the_matrix() {
    let matrix = vec![vec![1u64, 2, 3], vec![4, 5, 6]];
    assert_eq!(matrix, transpose(transpose(matrix.clone())));
}

// Identifiers.

fn check_id_generator() {
    let mut id_generator = IdGenerator { id: 0 };
    assert_eq!(Some(0), id_generator.next());
    assert_eq!(Some(1), id_generator.next());
}

#[test]
fn utils_test_id_generator() {
    check_id_generator();
}

#[test]
fn model_test_id_generator() {
    check_id_generator();
}

fn check_value_variable_compute() {
    let expected_error =
        ComputeError { message: String::from(r#"The "x" variable is not a constant."#) };
    match variable("x").compute_error() {
        None => panic!("Expected {:?}, but no error was received.", expected_error),
        Some(actual_error) => assert_eq!(expected_error, actual_error),
    };
}

#[test]
fn compute_test_value_variable_compute() {
    check_value_variable_compute();
}

#[test]
fn expression_tree_test_value_variable_compute() {
    check_value_variable_compute();
}

fn check_tree_with_variables_compute() {
    let settings = Settings::default();
    let tree = ExpressionTree {
        root: Node::Operator(OperationNode {
            operation: settings.find_binary_operator_by_name("*").unwrap(),
            arguments: vec![constant(2.0), variable("x")],
        }),
        variables: strings(&["x"]),
    };
    if tree.compute_error().is_none() {
        panic!("Computing a tree with a variable must return a `ComputeError`.");
    }
}

#[test]
fn compute_test_tree_with_variables_compute() {
    check_tree_with_variables_compute();
}

#[test]
fn expression_tree_test_tree_with_variables_compute() {
    check_tree_with_variables_compute();
}

#[test]
fn test_kind_indices_partition_the_positions() {
    let settings = Settings::default();
    let tree = create_mutation_tree(&settings);
    let mut all = tree.get_operator_node_indices();
    all.extend(tree.get_function_node_indices());
    all.extend(tree.get_value_node_indices());
    all.sort();
    assert_eq!((0..tree.count_nodes()).collect::<Vec<usize>>(), all);
}

#[test]
fn test_sqrt_of_e_is_printed_as_exp() {
    let settings = Settings::default();
    let tree = ExpressionTree::parse("sqrt(2.7182818)", &settings, &read).unwrap();
    let output = tree.create_output(&settings);
    assert_eq!(
        Node::Function(OperationNode {
            operation: settings.find_function_by_name("exp").unwrap(),
            arguments: vec![constant(0.5)],
        }),
        output.root
    );
}

#[test]
fn test_set_variables() {
    let settings = Settings::default();
    let mut tree = ExpressionTree::parse("x1 * 2", &settings, &read).unwrap();
    assert!(!tree.set_variables(&strings(&["x2"])));
    assert_eq!(strings(&["x1"]), tree.variables);
    assert!(tree.set_variables(&strings(&["x2", "x1"])));
    assert_eq!(strings(&["x2", "x1"]), tree.variables);
}

#[test]
fn test_checked_complexity() {
    let settings = create_complexity_settings();
    let tree = create_expression_tree_to_get_fitness(&settings);
    assert_eq!(Some(tree.get_complexity(&settings)), tree.checked_complexity(&settings));
    let mut heavy = Settings::default();
    heavy.variable_complexity = u32::MAX;
    assert_eq!(None, tree.checked_complexity(&heavy));
}

#[test]
fn test_select_individuals_to_cross_takes_adapted_then_random() {
    let positions = select_individuals_to_cross(&mut MockRandom::new_int(vec![5, 7]), 2, 3, 10);
    assert_eq!(vec![0, 1, 5, 7, 5], positions);
}

#[test]
fn test_select_individuals_to_cross_with_no_unadapted_range() {
    let positions = select_individuals_to_cross(&mut MockRandom::new_int(vec![1]), 3, 1, 3);
    assert_eq!(vec![0, 1, 2, 3], positions);
}

#[test]
fn test_complexity_is_the_sum_over_the_nodes() {
    let settings = Settings::default();
    let tree = create_mutation_tree(&settings);
    let mut sum = 0;
    for i in 0..tree.count_nodes() {
        sum += match tree.get_node_at(i) {
            Node::Operator(o) => o.operation.complexity,
            Node::Function(f) => f.operation.complexity,
            Node::Value(ValueNode::Variable(_)) => settings.variable_complexity,
            Node::Value(ValueNode::Constant(_)) => settings.constant_complexity,
        };
    }
    assert_eq!(12, sum);
    assert_eq!(sum, tree.get_complexity(&settings));
}

#[test]
fn test_subs_twice_is_subs_of_both() -> Result<(), SubsError> {
    let settings = Settings::default();
    let tree = create_tree_to_subs(&settings);
    let first = vec![(String::from("x1"), num(3.0))];
    let second = vec![(String::from("x2"), num(4.0))];
    let both = vec![(String::from("x1"), num(3.0)), (String::from("x2"), num(4.0))];
    assert_eq!(tree.subs(&both)?, tree.subs(&first)?.subs(&second)?);
    Ok(())
}
