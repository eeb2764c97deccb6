use symbolic_regression::error::{
    ErrorTokenData, InvalidArgumentsNumberError, MissingCommaError,
    MissingCommaOrOpeningBracketError, ParseError,
};
use symbolic_regression::lexer::{Lexer, Token, TokenValue};
use symbolic_regression::parser::Parser;
use symbolic_regression::settings::{ConverterOperation, Settings};
use symbolic_regression::types::{ExpressionTree, Node, OperationNode, ValueNode};

fn read(s: &str) -> Option<u64> {
    s.parse::<f64>().ok().map(f64::to_bits)
}

fn num(x: f64) -> u64 {
    x.to_bits()
}

fn constant(x: f64) -> Node {
    Node::Value(ValueNode::Constant(num(x)))
}

fn variable(name: &str) -> Node {
    Node::Value(ValueNode::Variable(String::from(name)))
}

fn create_one_token() -> Token {
    Token::Constant(TokenValue { value: num(1.0), string: String::from("1.0"), position: 0 })
}

fn create_x_token() -> Token {
    Token::Variable(TokenValue { value: String::from("x"), string: String::from("x"), position: 0 })
}

fn create_plus_token(settings: &Settings) -> Token {
    Token::Operator(TokenValue {
        value: settings.find_binary_operator_by_name("+").unwrap(),
        string: String::from("+"),
        position: 0,
    })
}

fn create_asterisk_token(settings: &Settings) -> Token {
    Token::Operator(TokenValue {
        value: settings.find_binary_operator_by_name("*").unwrap(),
        string: String::from("*"),
        position: 0,
    })
}

fn create_sin_token(settings: &Settings) -> Token {
    Token::Function(TokenValue {
        value: settings.find_function_by_name("sin").unwrap(),
        string: String::from("sin"),
        position: 0,
    })
}

fn create_log_token(settings: &Settings) -> Token {
    Token::Function(TokenValue {
        value: settings.find_function_by_name("log").unwrap(),
        string: String::from("log"),
        position: 0,
    })
}

fn create_ln_token(settings: &Settings) -> Token {
    Token::Function(TokenValue {
        value: settings.find_function_by_name("ln").unwrap(),
        string: String::from("ln"),
        position: 0,
    })
}

fn create_opening_bracket_token() -> Token {
    Token::OpeningBracket(TokenValue { value: (), string: String::from("("), position: 0 })
}

fn create_close_bracket_token() -> Token {
    Token::CloseBracket(TokenValue { value: (), string: String::from(")"), position: 0 })
}

fn create_comma_token() -> Token {
    Token::Comma(TokenValue { value: (), string: String::from(","), position: 0 })
}

#[test]
fn parser_test_operator_is_computed_before() {
    let settings = Settings::default();
    let plus = settings.find_binary_operator_by_name("+").unwrap();
    let minus = settings.find_binary_operator_by_name("-").unwrap();
    let asterisk = settings.find_binary_operator_by_name("*").unwrap();
    let slash = settings.find_binary_operator_by_name("/").unwrap();
    let circumflex = settings.find_binary_operator_by_name("^").unwrap();
    assert!(plus.is_computed_before(&plus));
    assert!(plus.is_computed_before(&minus));
    assert!(!plus.is_computed_before(&asterisk));
    assert!(circumflex.is_computed_before(&slash));
}

#[test]
fn parser_test_recognize_value_string_constant() {
    let expected_token =
        Token::Constant(TokenValue { value: num(1.0), string: String::from("1.0"), position: 5 });
    assert_eq!(expected_token, Lexer::recognize_value_string("1.0", 5, &read));
}

#[test]
fn parser_test_recognize_value_string_variable() {
    let expected_token = Token::Variable(TokenValue {
        value: String::from("x1"),
        string: String::from("x1"),
        position: 5,
    });
    assert_eq!(expected_token, Lexer::recognize_value_string("x1", 5, &read));
}

#[test]
fn parser_test_is_next_operator_unary() {
    let settings = Settings::default();
    let mut lexer = Lexer::new("", &settings);
    assert!(lexer.is_next_operator_unary());
    lexer.tokens = vec![create_plus_token(&settings)];
    assert!(lexer.is_next_operator_unary());
    lexer.tokens = vec![create_opening_bracket_token()];
    assert!(lexer.is_next_operator_unary());
    lexer.tokens = vec![create_one_token()];
    assert!(!lexer.is_next_operator_unary());
}

#[test]
fn parser_test_recognize_string_unary_operator() {
    let settings = Settings::default();
    let lexer = Lexer::new("", &settings);
    let expected_token = Token::Operator(TokenValue {
        value: settings.find_unary_operator_by_name("-").unwrap(),
        string: String::from("-"),
        position: 5,
    });
    assert_eq!(Some(expected_token), lexer.recognize_string("-", 5, true));
}

#[test]
fn parser_test_recognize_string_binary_operator() {
    let settings = Settings::default();
    let lexer = Lexer::new("", &settings);
    let expected_token = Token::Operator(TokenValue {
        value: settings.find_binary_operator_by_name("-").unwrap(),
        string: String::from("-"),
        position: 5,
    });
    assert_eq!(Some(expected_token), lexer.recognize_string("-", 5, false));
}

#[test]
fn parser_test_recognize_string_function() {
    let settings = Settings::default();
    let lexer = Lexer::new("", &settings);
    let expected_token = Token::Function(TokenValue {
        value: settings.find_function_by_name("sin").unwrap(),
        string: String::from("sin"),
        position: 5,
    });
    assert_eq!(Some(expected_token), lexer.recognize_string("sin", 5, false));
}

#[test]
fn parser_test_recognize_string_service() {
    let settings = Settings::default();
    let lexer = Lexer::new("", &settings);
    let expected_token =
        Token::OpeningBracket(TokenValue { value: (), string: String::from("("), position: 5 });
    assert_eq!(Some(expected_token), lexer.recognize_string("(", 5, false));
}

#[test]
fn parser_test_recognize_string_none() {
    let settings = Settings::default();
    let lexer = Lexer::new("", &settings);
    assert_eq!(None, lexer.recognize_string("unknown", 5, false));
}

#[test]
fn parser_test_perform_lexical_analysis() {
    let settings = Settings::default();
    let mut lexer = Lexer::new("log(2.0, x) + cos(-1.0) - x", &settings);
    lexer.perform_lexical_analysis(&read);
    let positions: Vec<usize> = lexer
        .tokens
        .iter()
        .map(|t| t.get_error_token_data().position)
        .collect();
    assert_eq!(vec![0, 3, 4, 7, 9, 10, 12, 14, 17, 18, 19, 22, 24, 26], positions);
    let strings: Vec<String> =
        lexer.tokens.iter().map(|t| t.get_error_token_data().string).collect();
    assert_eq!(
        vec!["log", "(", "2.0", ",", "x", ")", "+", "cos", "(", "-", "1.0", ")", "-", "x"],
        strings
    );
    assert_eq!(
        Token::Operator(TokenValue {
            value: settings.find_unary_operator_by_name("-").unwrap(),
            string: String::from("-"),
            position: 18
        }),
        lexer.tokens[9]
    );
    assert_eq!(
        Token::Operator(TokenValue {
            value: settings.find_binary_operator_by_name("-").unwrap(),
            string: String::from("-"),
            position: 24
        }),
        lexer.tokens[12]
    );
}

#[test]
fn test_push_token() -> Result<(), InvalidArgumentsNumberError> {
    let settings = Settings::default();
    let mut parser = Parser::new(&settings);
    parser.push_token(&create_one_token())?;
    let expected_error = InvalidArgumentsNumberError {
        data: create_plus_token(&settings).get_error_token_data(),
        expected: 2,
        actual: 1,
    };
    match parser.push_token(&create_plus_token(&settings)) {
        Ok(_) => panic!("Expected {:?}, but Ok(()) was received.", expected_error),
        Err(err) => assert_eq!(expected_error, err),
    }
    parser.push_token(&create_x_token())?;
    parser.push_token(&create_plus_token(&settings))?;
    parser.push_token(&create_sin_token(&settings))?;
    assert_eq!(
        vec![Node::Function(OperationNode {
            operation: settings.find_function_by_name("sin").unwrap(),
            arguments: vec![Node::Operator(OperationNode {
                operation: settings.find_binary_operator_by_name("+").unwrap(),
                arguments: vec![constant(1.0), variable("x")]
            })]
        })],
        parser.queue
    );
    Ok(())
}

#[test]
fn test_extract_arguments() -> Result<(), InvalidArgumentsNumberError> {
    let settings = Settings::default();
    let mut parser = Parser::new(&settings);
    parser.queue = vec![constant(1.0), constant(2.0), constant(3.0)];
    parser.extract_arguments(&create_log_token(&settings), 2)?;
    assert_eq!(vec![constant(1.0)], parser.queue);
    let expected_error = InvalidArgumentsNumberError {
        data: create_log_token(&settings).get_error_token_data(),
        expected: 2,
        actual: 1,
    };
    match parser.extract_arguments(&create_log_token(&settings), 2) {
        Ok(_) => panic!("Expected {:?}, but Ok(()) was received.", expected_error),
        Err(err) => assert_eq!(expected_error, err),
    };
    Ok(())
}

#[test]
fn test_create_operation_node() -> Result<(), InvalidArgumentsNumberError> {
    let settings = Settings::default();
    let mut parser = Parser::new(&settings);
    parser.queue = vec![variable("x")];
    let expected_node = Node::Function(OperationNode {
        operation: settings.find_function_by_name("log").unwrap(),
        arguments: vec![constant(std::f64::consts::E), variable("x")],
    });
    let actual_node = parser.create_operation_node(
        &create_ln_token(&settings),
        ConverterOperation::Function(settings.find_function_by_name("ln").unwrap()),
        1,
    )?;
    assert_eq!(expected_node, actual_node);
    assert_eq!(Vec::<Node>::new(), parser.queue);
    Ok(())
}

#[test]
fn test_shift_until_opening_bracket() -> Result<(), ParseError> {
    let settings = Settings::default();
    let mut parser = Parser::new(&settings);
    parser.queue = vec![constant(1.0), variable("x")];
    parser.stack = vec![
        create_one_token(),
        create_opening_bracket_token(),
        create_log_token(&settings),
    ];
    parser.shift_until_opening_bracket(&create_close_bracket_token())?;
    assert_eq!(vec![create_one_token(), create_opening_bracket_token()], parser.stack);
    assert_eq!(
        vec![Node::Function(OperationNode {
            operation: settings.find_function_by_name("log").unwrap(),
            arguments: vec![constant(1.0), variable("x")]
        })],
        parser.queue
    );
    Ok(())
}

#[test]
fn test_shift_until_opening_bracket_comma() {
    let settings = Settings::default();
    let mut parser = Parser::new(&settings);
    parser.stack = vec![create_one_token(), create_log_token(&settings)];
    let expected_error =
        ParseError::MissingCommaOrOpeningBracketError(MissingCommaOrOpeningBracketError {
            data: create_comma_token().get_error_token_data(),
        });
    match parser.shift_until_opening_bracket(&create_comma_token()) {
        Ok(_) => panic!("Expected {:?}, but Ok(()) was received.", expected_error),
        Err(err) => assert_eq!(expected_error, err),
    }
    let expected_stack: Vec<Token> = vec![];
    assert_eq!(expected_stack, parser.stack);
    assert_eq!(Vec::<Node>::new(), parser.queue);
}

#[test]
fn test_shift_until_opening_bracket_close_bracket() {
    let settings = Settings::default();
    let mut parser = Parser::new(&settings);
    parser.stack = vec![create_one_token(), create_log_token(&settings)];
    let expected_error = ParseError::MissingCommaError(MissingCommaError {
        data: create_close_bracket_token().get_error_token_data(),
    });
    match parser.shift_until_opening_bracket(&create_close_bracket_token()) {
        Ok(_) => panic!("Expected {:?}, but Ok(()) was received.", expected_error),
        Err(err) => assert_eq!(expected_error, err),
    }
    let expected_stack: Vec<Token> = vec![];
    assert_eq!(expected_stack, parser.stack);
    assert_eq!(Vec::<Node>::new(), parser.queue);
}

#[test]
fn test_shift_until_opening_bracket_invalid_arguments_number() {
    let settings = Settings::default();
    let mut parser = Parser::new(&settings);
    parser.queue = vec![constant(1.0)];
    parser.stack = vec![
        create_one_token(),
        create_opening_bracket_token(),
        create_log_token(&settings),
    ];
    let expected_error = ParseError::InvalidArgumentsNumberError(InvalidArgumentsNumberError {
        data: create_log_token(&settings).get_error_token_data(),
        expected: 2,
        actual: 1,
    });
    match parser.shift_until_opening_bracket(&create_close_bracket_token()) {
        Ok(_) => panic!("Expected {:?}, but Ok(()) was received.", expected_error),
        Err(err) => assert_eq!(expected_error, err),
    }
    assert_eq!(vec![create_one_token(), create_opening_bracket_token()], parser.stack);
    assert_eq!(vec![constant(1.0)], parser.queue);
}

#[test]
fn test_shift_all() -> Result<(), ParseError> {
    let settings = Settings::default();
    let mut parser = Parser::new(&settings);
    parser.stack = vec![create_plus_token(&settings), create_one_token(), create_x_token()];
    parser.shift_all()?;
    let expected_stack: Vec<Token> = vec![];
    assert_eq!(expected_stack, parser.stack);
    assert_eq!(
        vec![Node::Operator(OperationNode {
            operation: settings.find_binary_operator_by_name("+").unwrap(),
            arguments: vec![variable("x"), constant(1.0)]
        })],
        parser.queue
    );
    Ok(())
}

#[test]
fn test_shift_all_opening_bracket() {
    let settings = Settings::default();
    let mut parser = Parser::new(&settings);
    parser.stack = vec![create_one_token(), create_opening_bracket_token(), create_x_token()];
    let expected_error = ParseError::MissingCommaError(MissingCommaError {
        data: create_opening_bracket_token().get_error_token_data(),
    });
    match parser.shift_all() {
        Ok(_) => panic!("Expected {:?}, but Ok(()) was received.", expected_error),
        Err(err) => assert_eq!(expected_error, err),
    }
    assert_eq!(vec![create_one_token(), create_opening_bracket_token()], parser.stack);
    assert_eq!(vec![variable("x")], parser.queue);
}

#[test]
fn test_shift_all_invalid_arguments_number() {
    let settings = Settings::default();
    let mut parser = Parser::new(&settings);
    parser.queue = vec![constant(1.0)];
    parser.stack = vec![create_plus_token(&settings)];
    let expected_error = ParseError::InvalidArgumentsNumberError(InvalidArgumentsNumberError {
        data: create_plus_token(&settings).get_error_token_data(),
        expected: 2,
        actual: 1,
    });
    match parser.shift_all() {
        Ok(_) => panic!("Expected {:?}, but Ok(()) was received.", expected_error),
        Err(err) => assert_eq!(expected_error, err),
    }
    let expected_stack: Vec<Token> = vec![];
    assert_eq!(expected_stack, parser.stack);
    assert_eq!(vec![constant(1.0)], parser.queue);
}

#[test]
fn test_handle_constant() {
    let settings = Settings::default();
    let mut parser = Parser::new(&settings);
    match parser.handle_constant(create_one_token()) {
        Ok(_) => assert_eq!(vec![constant(1.0)], parser.queue),
        Err(_) => unreachable!(),
    };
}

#[test]
fn test_handle_variable() {
    let settings = Settings::default();
    let mut parser = Parser::new(&settings);
    match parser.handle_variable(create_x_token()) {
        Ok(_) => {
            assert_eq!(vec![variable("x")], parser.queue);
            assert_eq!(vec![String::from("x")], parser.variables);
        }
        Err(_) => unreachable!(),
    }
}

#[test]
fn test_handle_operator_without_computed_before() -> Result<(), ParseError> {
    let settings = Settings::default();
    let mut parser = Parser::new(&settings);
    parser.stack = vec![create_plus_token(&settings)];
    parser.handle_operator(create_asterisk_token(&settings))?;
    assert_eq!(
        vec![create_plus_token(&settings), create_asterisk_token(&settings)],
        parser.stack
    );
    assert_eq!(Vec::<Node>::new(), parser.queue);
    Ok(())
}

#[test]
fn test_handle_operator_with_computed_before() -> Result<(), ParseError> {
    let settings = Settings::default();
    let mut parser = Parser::new(&settings);
    parser.queue = vec![constant(1.0), variable("x")];
    parser.stack = vec![create_asterisk_token(&settings)];
    parser.handle_operator(create_plus_token(&settings))?;
    assert_eq!(vec![create_plus_token(&settings)], parser.stack);
    assert_eq!(
        vec![Node::Operator(OperationNode {
            operation: settings.find_binary_operator_by_name("*").unwrap(),
            arguments: vec![constant(1.0), variable("x")]
        })],
        parser.queue
    );
    Ok(())
}

#[test]
fn test_handle_operator_with_computed_before_invalid_arguments_number() {
    let settings = Settings::default();
    let mut parser = Parser::new(&settings);
    parser.queue = vec![constant(1.0)];
    parser.stack = vec![create_asterisk_token(&settings)];
    let expected_error = ParseError::InvalidArgumentsNumberError(InvalidArgumentsNumberError {
        data: create_asterisk_token(&settings).get_error_token_data(),
        expected: 2,
        actual: 1,
    });
    match parser.handle_operator(create_plus_token(&settings)) {
        Ok(_) => panic!("Expected {:?}, but Ok(()) was received.", expected_error),
        Err(err) => assert_eq!(expected_error, err),
    };
    let expected_stack: Vec<Token> = vec![];
    assert_eq!(expected_stack, parser.stack);
    assert_eq!(vec![constant(1.0)], parser.queue);
}

#[test]
fn test_handle_close_bracket() -> Result<(), ParseError> {
    let settings = Settings::default();
    let mut parser = Parser::new(&settings);
    parser.queue = vec![constant(1.0), variable("x")];
    parser.stack = vec![
        create_one_token(),
        create_log_token(&settings),
        create_opening_bracket_token(),
    ];
    parser.handle_close_bracket(create_close_bracket_token())?;
    assert_eq!(vec![create_one_token()], parser.stack);
    assert_eq!(
        vec![Node::Function(OperationNode {
            operation: settings.find_function_by_name("log").unwrap(),
            arguments: vec![constant(1.0), variable("x")]
        })],
        parser.queue
    );
    Ok(())
}

#[test]
fn test_parse_empty_formula_error() {
    let settings = Settings::default();
    let expected_error = ParseError::EmptyFormulaError;
    match ExpressionTree::parse("", &settings, &read) {
        Ok(actual_tree) => {
            panic!("Expected {:?}, but {:?} was received.", expected_error, actual_tree)
        }
        Err(err) => assert_eq!(expected_error, err),
    }
}

#[test]
fn test_multiple_formula_error() {
    let settings = Settings::default();
    let expected_error = ParseError::MultipleFormulaError;
    match ExpressionTree::parse("x + 1 1 + 2", &settings, &read) {
        Ok(actual_tree) => {
            panic!("Expected {:?}, but {:?} was received.", expected_error, actual_tree)
        }
        Err(err) => assert_eq!(expected_error, err),
    }
}

#[test]
fn test_parse_without_functions() -> Result<(), ParseError> {
    let settings = Settings::default();
    let expression = String::from("3 + 4 * 2 / ( x - 5 ) ^ -2 ^ 3");
    let plus = settings.find_binary_operator_by_name("+").unwrap();
    let unary_minus = settings.find_unary_operator_by_name("-").unwrap();
    let binary_minus = settings.find_binary_operator_by_name("-").unwrap();
    let slash = settings.find_binary_operator_by_name("/").unwrap();
    let asterisk = settings.find_binary_operator_by_name("*").unwrap();
    let circumflex = settings.find_binary_operator_by_name("^").unwrap();
    let actual_tree = ExpressionTree::parse(&expression, &settings, &read)?;
    assert_eq!(
        ExpressionTree {
            root: Node::Operator(OperationNode {
                operation: plus.clone(),
                arguments: vec![
                    constant(3.0),
                    Node::Operator(OperationNode {
                        operation: slash.clone(),
                        arguments: vec![
                            Node::Operator(OperationNode {
                                operation: asterisk.clone(),
                                arguments: vec![constant(4.0), constant(2.0)]
                            }),
                            Node::Operator(OperationNode {
                                operation: circumflex.clone(),
                                arguments: vec![
                                    Node::Operator(OperationNode {
                                        operation: binary_minus.clone(),
                                        arguments: vec![variable("x"), constant(5.0)]
                                    }),
                                    Node::Operator(OperationNode {
                                        operation: circumflex.clone(),
                                        arguments: vec![
                                            Node::Operator(OperationNode {
                                                operation: unary_minus.clone(),
                                                arguments: vec![constant(2.0)]
                                            }),
                                            constant(3.0),
                                        ]
                                    })
                                ]
                            })
                        ]
                    })
                ]
            }),
            variables: vec![String::from("x")]
        },
        actual_tree
    );
    Ok(())
}

#[test]
fn test_parse_with_functions() -> Result<(), ParseError> {
    let settings = Settings::default();
    let expression = String::from("-ln(log(2, 3) / x1 * x2)");
    let unary_minus = settings.find_unary_operator_by_name("-").unwrap();
    let asterisk = settings.find_binary_operator_by_name("*").unwrap();
    let slash = settings.find_binary_operator_by_name("/").unwrap();
    let log = settings.find_function_by_name("log").unwrap();
    let actual_tree = ExpressionTree::parse(&expression, &settings, &read)?;
    assert_eq!(
        ExpressionTree {
            root: Node::Operator(OperationNode {
                operation: unary_minus.clone(),
                arguments: vec![Node::Function(OperationNode {
                    operation: log.clone(),
                    arguments: vec![
                        constant(std::f64::consts::E),
                        Node::Operator(OperationNode {
                            operation: asterisk.clone(),
                            arguments: vec![
                                Node::Operator(OperationNode {
                                    operation: slash.clone(),
                                    arguments: vec![
                                        Node::Function(OperationNode {
                                            operation: log.clone(),
                                            arguments: vec![constant(2.0), constant(3.0)]
                                        }),
                                        variable("x1")
                                    ]
                                }),
                                variable("x2")
                            ]
                        })
                    ]
                })]
            }),
            variables: vec![String::from("x1"), String::from("x2")]
        },
        actual_tree
    );
    Ok(())
}

#[test]
fn parser_test_get_error_token_data() {
    let settings = Settings::default();
    let token = create_sin_token(&settings);
    assert_eq!(
        ErrorTokenData { string: String::from("sin"), position: 0 },
        token.get_error_token_data()
    );
}

#[test]
fn test_parse_lists_each_variable_once() -> Result<(), ParseError> {
    let settings = Settings::default();
    let tree = ExpressionTree::parse("x * y + sin(x) - y / z", &settings, &read)?;
    assert_eq!(vec![String::from("x"), String::from("y"), String::from("z")], tree.variables);
    Ok(())
}

#[test]
fn test_parse_missing_comma_error() {
    let settings = Settings::default();
    match ExpressionTree::parse("(x + 1", &settings, &read) {
        Err(ParseError::MissingCommaError(err)) => assert_eq!(0, err.data.position),
        other => panic!("Expected a missing comma error, but {:?} was received.", other),
    }
}

#[test]
fn test_parse_missing_opening_bracket_error() {
    let settings = Settings::default();
    match ExpressionTree::parse("x, 1", &settings, &read) {
        Err(ParseError::MissingCommaOrOpeningBracketError(err)) => {
            assert_eq!(String::from(","), err.data.string)
        }
        other => panic!("Expected a missing opening bracket error, but {:?} was received.", other),
    }
}
