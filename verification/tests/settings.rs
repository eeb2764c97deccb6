use symbolic_regression::defaults::{E_HIGH_BITS, E_LOW_BITS};
use symbolic_regression::settings::{
    ArgumentsTransform, ConversionCondition, ConvertOutputData, Converter, ConverterOperation,
    Settings,
};
use symbolic_regression::types::{Associativity, Function, Node, OperationNode, Operator, ValueNode};

fn num(x: f64) -> u64 {
    x.to_bits()
}

fn constant(x: f64) -> Node {
    Node::Value(ValueNode::Constant(num(x)))
}

fn variable(name: &str) -> Node {
    Node::Value(ValueNode::Variable(String::from(name)))
}

fn check_find_unary_operator_by_name() {
    let settings = Settings::default();
    assert_eq!(settings.operators[5], settings.find_unary_operator_by_name("+").unwrap());
    assert_eq!(None, settings.find_unary_operator_by_name("&"));
}

fn check_find_binary_operator_by_name() {
    let settings = Settings::default();
    assert_eq!(settings.operators[0], settings.find_binary_operator_by_name("+").unwrap());
    assert_eq!(None, settings.find_binary_operator_by_name("&"));
}

fn check_find_function_by_name() {
    let settings = Settings::default();
    assert_eq!(settings.functions[0], settings.find_function_by_name("abs").unwrap());
    assert_eq!(None, settings.find_function_by_name("fn"));
}

fn check_find_converters() {
    let settings = Settings::default();
    assert_eq!(
        vec![&settings.converters[4], &settings.converters[5]],
        settings.find_converters(&ConverterOperation::Operator(
            settings.find_binary_operator_by_name("^").unwrap()
        ))
    );
    let empty_vec: Vec<&Converter> = vec![];
    assert_eq!(
        empty_vec,
        settings.find_converters(&ConverterOperation::Operator(
            settings.find_binary_operator_by_name("+").unwrap()
        ))
    );
}

fn check_conversion_is_not_possible() {
    let settings = Settings::default();
    let log = settings.find_function_by_name("log").unwrap();
    let expected_output_data = ConvertOutputData {
        operation: ConverterOperation::Function(log.clone()),
        arguments: vec![variable("x"), constant(10.0)],
    };
    let actual_output_data = settings
        .convert(ConverterOperation::Function(log.clone()), vec![variable("x"), constant(10.0)]);
    assert_eq!(expected_output_data, actual_output_data);
}

fn check_convert_log_to_ln() {
    let settings = Settings::default();
    let expected_output_data = ConvertOutputData {
        operation: ConverterOperation::Function(settings.find_function_by_name("ln").unwrap()),
        arguments: vec![variable("x")],
    };
    let actual_output_data = settings.convert(
        ConverterOperation::Function(settings.find_function_by_name("log").unwrap()),
        vec![constant(std::f64::consts::E + 0.0001), variable("x")],
    );
    assert_eq!(expected_output_data, actual_output_data);
}

fn check_convert_pow_to_sqrt() {
    let settings = Settings::default();
    let expected_output_data = ConvertOutputData {
        operation: ConverterOperation::Operator(
            settings.find_binary_operator_by_name("^").unwrap(),
        ),
        arguments: vec![constant(2.0), constant(0.5)],
    };
    let actual_output_data = settings.convert(
        ConverterOperation::Function(settings.find_function_by_name("sqrt").unwrap()),
        vec![constant(2.0)],
    );
    assert_eq!(expected_output_data, actual_output_data);
}

#[test]
fn settings_test_find_unary_operator_by_name() {
    check_find_unary_operator_by_name();
}

#[test]
fn core_test_find_unary_operator_by_name() {
    check_find_unary_operator_by_name();
}

#[test]
fn settings_test_find_binary_operator_by_name() {
    check_find_binary_operator_by_name();
}

#[test]
fn core_test_find_binary_operator_by_name() {
    check_find_binary_operator_by_name();
}

#[test]
fn settings_test_find_function_by_name() {
    check_find_function_by_name();
}

#[test]
fn core_test_find_function_by_name() {
    check_find_function_by_name();
}

#[test]
fn settings_test_find_converters() {
    check_find_converters();
}

#[test]
fn core_test_find_converters() {
    check_find_converters();
}

#[test]
fn settings_test_conversion_is_not_possible() {
    check_conversion_is_not_possible();
}

#[test]
fn core_test_conversion_is_not_possible() {
    check_conversion_is_not_possible();
}

#[test]
fn settings_test_convert_log_to_ln() {
    check_convert_log_to_ln();
}

#[test]
fn core_test_convert_log_to_ln() {
    check_convert_log_to_ln();
}

#[test]
fn settings_test_convert_pow_to_sqrt() {
    check_convert_pow_to_sqrt();
}

#[test]
fn core_test_convert_pow_to_sqrt() {
    check_convert_pow_to_sqrt();
}

fn create_plus_operator() -> Operator {
    Operator {
        name: String::from("+"),
        arguments_number: 2,
        precedence: 1,
        associativity: Associativity::Left,
        complexity: 1,
    }
}

fn create_operator(name: &str, precedence: u8, associativity: Associativity) -> Operator {
    Operator {
        name: String::from(name),
        arguments_number: 2,
        precedence,
        associativity,
        complexity: 1,
    }
}

fn create_sin_function() -> Function {
    Function { name: String::from("sin"), arguments_number: 1, complexity: 1 }
}

fn create_log_function() -> Function {
    Function { name: String::from("log"), arguments_number: 2, complexity: 1 }
}

fn create_ln_function() -> Function {
    Function { name: String::from("ln"), arguments_number: 1, complexity: 1 }
}

fn create_log_to_ln_converter() -> Converter {
    Converter {
        from: ConverterOperation::Function(create_log_function()),
        to: ConverterOperation::Function(create_ln_function()),
        condition: ConversionCondition::ConstantInRange {
            position: 0,
            low: E_LOW_BITS,
            high: E_HIGH_BITS,
        },
        transform: ArgumentsTransform::RemoveArgument { position: 0 },
    }
}

#[test]
fn types_test_debug() {
    assert_eq!(
        "Operator { name: \"+\", arguments_number: 2, precedence: 1, associativity: Left, complexity: 1 }",
        format!("{:?}", create_plus_operator())
    );
    assert_eq!(
        "Function { name: \"sin\", arguments_number: 1, complexity: 1 }",
        format!("{:?}", create_sin_function())
    );
}

#[test]
fn types_test_eq() {
    let plus_operator1 = create_plus_operator();
    let mut plus_operator2 = create_plus_operator();
    assert!(plus_operator1 == plus_operator2);
    plus_operator2.name = String::from("-");
    assert!(plus_operator1 != plus_operator2);
    let test_function1 = create_sin_function();
    let mut test_function2 = create_sin_function();
    assert!(test_function1 == test_function2);
    test_function2.name = String::from("cos");
    assert!(test_function1 != test_function2);
    let test_converter1 = create_log_to_ln_converter();
    let mut test_converter2 = create_log_to_ln_converter();
    assert!(test_converter1 == test_converter2);
    test_converter2.from = ConverterOperation::Function(create_ln_function());
    assert!(test_converter1 != test_converter2);
}

#[test]
fn types_test_operator_is_computed_before() {
    let plus = create_plus_operator();
    let minus = create_operator("-", 1, Associativity::Left);
    let asterisk = create_operator("*", 2, Associativity::Left);
    let slash = create_operator("/", 2, Associativity::Left);
    let circumflex = create_operator("^", 3, Associativity::Right);
    assert!(plus.is_computed_before(&plus));
    assert!(plus.is_computed_before(&minus));
    assert!(!plus.is_computed_before(&asterisk));
    assert!(circumflex.is_computed_before(&slash));
    assert!(!circumflex.is_computed_before(&circumflex));
}

#[test]
fn types_test_is_conversion_possible() {
    let converter = create_log_to_ln_converter();
    let possible_arguments = vec![constant(std::f64::consts::E + 0.0001), constant(10.0)];
    let not_possible_arguments = vec![constant(std::f64::consts::E + 0.01), constant(10.0)];
    assert!(converter.is_conversion_possible(
        &ConverterOperation::Function(create_log_function()),
        &possible_arguments
    ));
    assert!(!converter.is_conversion_possible(
        &ConverterOperation::Function(create_ln_function()),
        &not_possible_arguments
    ));
    assert!(!converter.is_conversion_possible(
        &ConverterOperation::Function(create_log_function()),
        &not_possible_arguments
    ));
}

#[test]
fn types_test_convert() {
    let converter = create_log_to_ln_converter();
    let arguments = vec![constant(std::f64::consts::E + 0.0001), constant(10.0)];
    assert_eq!(
        ConvertOutputData {
            operation: ConverterOperation::Function(create_ln_function()),
            arguments: vec![constant(10.0)]
        },
        converter.convert(arguments)
    );
}

#[test]
fn types_test_convert_output_data_to_node_operator() {
    let settings = Settings::default();
    let operator_output_data = ConvertOutputData {
        operation: ConverterOperation::Operator(settings.find_binary_operator_by_name("+").unwrap()),
        arguments: vec![variable("x"), constant(1.0)],
    };
    let expected_node = Node::Operator(OperationNode {
        operation: settings.find_binary_operator_by_name("+").unwrap(),
        arguments: vec![variable("x"), constant(1.0)],
    });
    assert_eq!(expected_node, operator_output_data.to_node());
}

#[test]
fn types_test_convert_output_data_to_node_function() {
    let function_output_data = ConvertOutputData {
        operation: ConverterOperation::Function(create_log_function()),
        arguments: vec![variable("x"), constant(1.0)],
    };
    let expected_node = Node::Function(OperationNode {
        operation: create_log_function(),
        arguments: vec![variable("x"), constant(1.0)],
    });
    assert_eq!(expected_node, function_output_data.to_node());
}

#[test]
fn test_e_range_bounds() {
    let e = std::f64::consts::E;
    assert!((f64::from_bits(E_LOW_BITS) - e).abs() <= 0.001);
    assert!((f64::from_bits(E_HIGH_BITS) - e).abs() <= 0.001);
    assert!((f64::from_bits(E_LOW_BITS - 1) - e).abs() > 0.001);
    assert!((f64::from_bits(E_HIGH_BITS + 1) - e).abs() > 0.001);
    let half = symbolic_regression::defaults::HALF_LOW_BITS;
    let half_high = symbolic_regression::defaults::HALF_HIGH_BITS;
    assert!((f64::from_bits(half) - 0.5).abs() <= 0.001);
    assert!((f64::from_bits(half_high) - 0.5).abs() <= 0.001);
    assert!((f64::from_bits(half - 1) - 0.5).abs() > 0.001);
    assert!((f64::from_bits(half_high + 1) - 0.5).abs() > 0.001);
    assert_eq!(std::f64::consts::E.to_bits(), symbolic_regression::defaults::E_BITS);
    assert_eq!(0.5f64.to_bits(), symbolic_regression::defaults::HALF_BITS);
}

#[test]
fn test_default_settings_complexities() {
    let settings = Settings::default();
    assert_eq!(7, settings.operators.len());
    assert_eq!(21, settings.functions.len());
    assert_eq!(6, settings.converters.len());
    assert_eq!(1, settings.variable_complexity);
    assert_eq!(1, settings.constant_complexity);
}
