use symbolic_regression::settings::Settings;
use symbolic_regression::types::{ExpressionTree, Node, OperationNode, ValueNode};

/// Prints a constant as `f64` does.
fn write(bits: u64) -> String {
    f64::from_bits(bits).to_string()
}

fn shown_constant(x: f64) -> Node {
    Node::Value(ValueNode::Constant(x.to_bits()))
}

fn shown_variable(name: &str) -> Node {
    Node::Value(ValueNode::Variable(String::from(name)))
}

fn check_display_value_node() {
    let variable_node = ValueNode::Variable(String::from("x"));
    assert_eq!("x", variable_node.to_string(&write));
    let constant_node = ValueNode::Constant(1.0_f64.to_bits());
    assert_eq!("1", constant_node.to_string(&write));
}

fn check_display_operation_node_operator() {
    let settings = Settings::default();
    let one_argument_node = OperationNode {
        operation: settings.find_unary_operator_by_name("-").unwrap(),
        arguments: vec![shown_constant(1.0)],
    };
    assert_eq!("-1", one_argument_node.to_string(&write));
    let two_arguments_node = OperationNode {
        operation: settings.find_binary_operator_by_name("+").unwrap(),
        arguments: vec![shown_variable("x"), shown_constant(1.0)],
    };
    assert_eq!("x + 1", two_arguments_node.to_string(&write));
}

fn check_display_operation_node_function() {
    let settings = Settings::default();
    let sin_node = OperationNode {
        operation: settings.find_function_by_name("sin").unwrap(),
        arguments: vec![shown_constant(1.0)],
    };
    assert_eq!("sin(1)", sin_node.to_string(&write));
    let log_node = OperationNode {
        operation: settings.find_function_by_name("log").unwrap(),
        arguments: vec![shown_constant(2.0), shown_variable("x")],
    };
    assert_eq!("log(2, x)", log_node.to_string(&write));
}

fn create_tree_to_display(settings: &Settings) -> ExpressionTree {
    let binary = |name: &str, arguments: Vec<Node>| {
        Node::Operator(OperationNode { operation: settings.find_binary_operator_by_name(name).unwrap(), arguments })
    };
    ExpressionTree {
        root: binary(
            "^",
            vec![
                binary(
                    "*",
                    vec![
                        Node::Function(OperationNode {
                            operation: settings.find_function_by_name("log").unwrap(),
                            arguments: vec![shown_constant(0.5), shown_constant(1.0)],
                        }),
                        binary("/", vec![shown_variable("x1"), shown_constant(1.5)]),
                    ],
                ),
                binary(
                    "*",
                    vec![
                        binary("^", vec![shown_constant(2.0), shown_constant(2.5)]),
                        binary("+", vec![shown_constant(3.0), shown_variable("x2")]),
                    ],
                ),
            ],
        ),
        variables: vec![String::from("x1"), String::from("x2")],
    }
}

fn check_display_expression_tree() {
    let settings = Settings::default();
    let tree = create_tree_to_display(&settings);
    assert_eq!("(log(0.5, 1) * x1 / 1.5) ^ (2 ^ 2.5 * (3 + x2))", tree.to_string(&write));
}

#[test]
fn display_test_display_value_node() {
    check_display_value_node();
}

#[test]
fn expression_tree_test_display_value_node() {
    check_display_value_node();
}

#[test]
fn display_test_display_operation_node_operator() {
    check_display_operation_node_operator();
}

#[test]
fn expression_tree_test_display_operation_node_operator() {
    check_display_operation_node_operator();
}

#[test]
fn display_test_display_operation_node_function() {
    check_display_operation_node_function();
}

#[test]
fn expression_tree_test_display_operation_node_function() {
    check_display_operation_node_function();
}

#[test]
fn display_test_display_expression_tree() {
    check_display_expression_tree();
}

#[test]
fn expression_tree_test_display_expression_tree() {
    check_display_expression_tree();
}

#[test]
fn test_display_operator() {
    let settings = Settings::default();
    let plus_operator = settings.find_binary_operator_by_name("+").unwrap();
    assert_eq!("+", plus_operator.to_string());
}

#[test]
fn test_display_function() {
    let settings = Settings::default();
    let sin_function = settings.find_function_by_name("sin").unwrap();
    assert_eq!("sin", sin_function.to_string());
}

#[test]
fn types_test_display() {
    let settings = Settings::default();
    assert_eq!("+", settings.find_binary_operator_by_name("+").unwrap().to_string());
    assert_eq!("sin", settings.find_function_by_name("sin").unwrap().to_string());
}

#[test]
fn test_display_brackets_only_operators_applied_later() {
    let settings = Settings::default();
    let binary = |name: &str, arguments: Vec<Node>| {
        Node::Operator(OperationNode { operation: settings.find_binary_operator_by_name(name).unwrap(), arguments })
    };
    // (x - 1) * (y ^ 2): the - is applied after *, the ^ before it.
    let node = binary(
        "*",
        vec![
            binary("-", vec![shown_variable("x"), shown_constant(1.0)]),
            binary("^", vec![shown_variable("y"), shown_constant(2.0)]),
        ],
    );
    assert_eq!("(x - 1) * y ^ 2", node.to_string(&write));
    // A right-grouping operator puts an equal one on its right in brackets.
    let power = binary("^", vec![shown_variable("a"), binary("^", vec![shown_variable("b"), shown_variable("c")])]);
    assert_eq!("a ^ (b ^ c)", power.to_string(&write));
}

#[test]
fn test_display_unary_operator_and_function_arguments() {
    let settings = Settings::default();
    let minus = Node::Operator(OperationNode {
        operation: settings.find_unary_operator_by_name("-").unwrap(),
        arguments: vec![Node::Function(OperationNode {
            operation: settings.find_function_by_name("log").unwrap(),
            arguments: vec![shown_variable("x"), shown_constant(-2.5)],
        })],
    });
    assert_eq!("-log(x, -2.5)", minus.to_string(&write));
}
