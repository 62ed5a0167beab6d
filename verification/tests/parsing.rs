//! Grammar-level tests: literals, operators, precedence, associativity,
//! grouping, statements.

use lox_parser::{parse_program, BinaryOp, Expr, Stmt, UnaryOp, Value};

#[test]
fn lib_test_simple_expression() {
    let input = "1 + 2;";
    let result = parse_program(input).unwrap();

    assert_eq!(result.statements.len(), 1);
    match &result.statements[0] {
        Stmt::Expression(Expr::Binary { left, operator, right }) => {
            assert!(matches!(&**left, Expr::Literal(Value::Number(t)) if t == "1"));
            assert_eq!(*operator, BinaryOp::Add);
            assert!(matches!(&**right, Expr::Literal(Value::Number(t)) if t == "2"));
        }
        _ => panic!("Expected binary expression"),
    }
}

#[test]
fn main_test_simple_expression() {
    let input = "1 + 2;";
    let result = parse_program(input).unwrap();

    assert_eq!(result.statements.len(), 1);
    match &result.statements[0] {
        Stmt::Expression(Expr::Binary { left, operator, right }) => {
            assert!(matches!(&**left, Expr::Literal(Value::Number(t)) if t == "1"));
            assert_eq!(*operator, BinaryOp::Add);
            assert!(matches!(&**right, Expr::Literal(Value::Number(t)) if t == "2"));
        }
        _ => panic!("Expected binary expression"),
    }
}

#[test]
fn lib_test_print_statement() {
    let input = r#"print "Hello, world!";"#;
    let result = parse_program(input).unwrap();

    assert_eq!(result.statements.len(), 1);
    match &result.statements[0] {
        Stmt::Print(Expr::Literal(Value::String(s))) => {
            assert_eq!(s, "Hello, world!");
        }
        _ => panic!("Expected print statement with string literal"),
    }
}

#[test]
fn main_test_print_statement() {
    let input = r#"print "Hello, world!";"#;
    let result = parse_program(input).unwrap();

    assert_eq!(result.statements.len(), 1);
    match &result.statements[0] {
        Stmt::Print(Expr::Literal(Value::String(s))) => {
            assert_eq!(s, "Hello, world!");
        }
        _ => panic!("Expected print statement with string literal"),
    }
}

#[test]
fn lib_test_variable_declaration() {
    let input = "var x = 42;";
    let result = parse_program(input).unwrap();

    assert_eq!(result.statements.len(), 1);
    match &result.statements[0] {
        Stmt::VarDeclaration { name, initializer } => {
            assert_eq!(name, "x");
            assert!(matches!(initializer, Some(Expr::Literal(Value::Number(t))) if t == "42"));
        }
        _ => panic!("Expected variable declaration"),
    }
}

#[test]
fn main_test_variable_declaration() {
    let input = "var x = 42;";
    let result = parse_program(input).unwrap();

    assert_eq!(result.statements.len(), 1);
    match &result.statements[0] {
        Stmt::VarDeclaration { name, initializer } => {
            assert_eq!(name, "x");
            assert!(matches!(initializer, Some(Expr::Literal(Value::Number(t))) if t == "42"));
        }
        _ => panic!("Expected variable declaration"),
    }
}

#[test]
fn test_variable_declaration_without_initializer() {
    let input = "var x;";
    let result = parse_program(input).unwrap();

    assert_eq!(result.statements.len(), 1);
    match &result.statements[0] {
        Stmt::VarDeclaration { name, initializer } => {
            assert_eq!(name, "x");
            assert!(initializer.is_none());
        }
        _ => panic!("Expected variable declaration"),
    }
}

#[test]
fn test_multiple_statements() {
    let input = r#"
            var x = 1;
            print x;
            x = x + 1;
        "#;
    let result = parse_program(input).unwrap();
    assert_eq!(result.statements.len(), 3);
}

#[test]
fn lib_test_unary_expressions() {
    let test_cases = vec![
        ("-42;", UnaryOp::Minus, Value::Number("42".to_string())),
        ("!true;", UnaryOp::Not, Value::Bool(true)),
        ("!false;", UnaryOp::Not, Value::Bool(false)),
    ];

    for (input, expected_op, expected_operand) in test_cases {
        let result = parse_program(input).unwrap();
        assert_eq!(result.statements.len(), 1);

        match &result.statements[0] {
            Stmt::Expression(Expr::Unary { operator, operand }) => {
                assert_eq!(*operator, expected_op);
                match &**operand {
                    Expr::Literal(value) => {
                        assert_eq!(*value, expected_operand);
                    }
                    _ => panic!("Expected literal operand"),
                }
            }
            _ => panic!("Expected unary expression"),
        }
    }
}

#[test]
fn lib_test_operator_precedence() {
    // 1 + 2 * 3 must parse as 1 + (2 * 3)
    let input = "1 + 2 * 3;";
    let result = parse_program(input).unwrap();

    assert_eq!(result.statements.len(), 1);
    match &result.statements[0] {
        Stmt::Expression(Expr::Binary { left, operator, right }) => {
            assert!(matches!(&**left, Expr::Literal(Value::Number(t)) if t == "1"));
            assert_eq!(*operator, BinaryOp::Add);

            match &**right {
                Expr::Binary { left: inner_left, operator: inner_op, right: inner_right } => {
                    assert!(matches!(&**inner_left, Expr::Literal(Value::Number(t)) if t == "2"));
                    assert_eq!(*inner_op, BinaryOp::Multiply);
                    assert!(matches!(&**inner_right, Expr::Literal(Value::Number(t)) if t == "3"));
                }
                _ => panic!("Expected multiplication on right side"),
            }
        }
        _ => panic!("Expected binary expression"),
    }
}

#[test]
fn test_grouping() {
    let input = "(1 + 2) * 3;";
    let result = parse_program(input).unwrap();

    assert_eq!(result.statements.len(), 1);
    match &result.statements[0] {
        Stmt::Expression(Expr::Binary { left, operator, right }) => {
            match &**left {
                Expr::Grouping(inner) => match &**inner {
                    Expr::Binary { left: inner_left, operator: inner_op, right: inner_right } => {
                        assert!(
                            matches!(&**inner_left, Expr::Literal(Value::Number(t)) if t == "1")
                        );
                        assert_eq!(*inner_op, BinaryOp::Add);
                        assert!(
                            matches!(&**inner_right, Expr::Literal(Value::Number(t)) if t == "2")
                        );
                    }
                    _ => panic!("Expected addition inside grouping"),
                },
                _ => panic!("Expected grouping on left side"),
            }

            assert_eq!(*operator, BinaryOp::Multiply);
            assert!(matches!(&**right, Expr::Literal(Value::Number(t)) if t == "3"));
        }
        _ => panic!("Expected binary expression"),
    }
}

#[test]
fn test_logical_operators() {
    let test_cases = vec![
        ("true and false;", BinaryOp::And),
        ("true or false;", BinaryOp::Or),
    ];

    for (input, expected_op) in test_cases {
        let result = parse_program(input).unwrap();
        assert_eq!(result.statements.len(), 1);

        match &result.statements[0] {
            Stmt::Expression(Expr::Binary { left, operator, right }) => {
                assert!(matches!(&**left, Expr::Literal(Value::Bool(true))));
                assert_eq!(*operator, expected_op);
                assert!(matches!(&**right, Expr::Literal(Value::Bool(false))));
            }
            _ => panic!("Expected binary expression"),
        }
    }
}

#[test]
fn test_comparison_operators() {
    let test_cases = vec![
        ("5 > 3;", BinaryOp::Greater),
        ("5 >= 3;", BinaryOp::GreaterEqual),
        ("3 < 5;", BinaryOp::Less),
        ("3 <= 5;", BinaryOp::LessEqual),
        ("5 == 5;", BinaryOp::Equal),
        ("5 != 3;", BinaryOp::NotEqual),
    ];

    for (input, expected_op) in test_cases {
        let result = parse_program(input).unwrap();
        assert_eq!(result.statements.len(), 1);

        match &result.statements[0] {
            Stmt::Expression(Expr::Binary { operator, .. }) => {
                assert_eq!(*operator, expected_op);
            }
            _ => panic!("Expected binary expression"),
        }
    }
}

#[test]
fn test_assignment() {
    let input = "x = 42;";
    let result = parse_program(input).unwrap();

    assert_eq!(result.statements.len(), 1);
    match &result.statements[0] {
        Stmt::Expression(Expr::Assignment { name, value }) => {
            assert_eq!(name, "x");
            assert!(matches!(&**value, Expr::Literal(Value::Number(t)) if t == "42"));
        }
        _ => panic!("Expected assignment expression"),
    }
}

#[test]
fn test_complex_program() {
    let input = r#"
            var a = 10;
            var b = 20;
            var sum = a + b;
            print sum;
        "#;

    let result = parse_program(input).unwrap();
    assert_eq!(result.statements.len(), 4);

    match &result.statements[0] {
        Stmt::VarDeclaration { name, initializer } => {
            assert_eq!(name, "a");
            assert!(matches!(initializer, Some(Expr::Literal(Value::Number(t))) if t == "10"));
        }
        _ => panic!("Expected variable declaration"),
    }

    match &result.statements[3] {
        Stmt::Print(Expr::Variable(var_name)) => {
            assert_eq!(var_name, "sum");
        }
        _ => panic!("Expected print statement"),
    }
}

#[test]
fn test_left_associativity() {
    // 8 - 4 - 2 must parse as (8 - 4) - 2, never 8 - (4 - 2)
    let result = parse_program("8 - 4 - 2;").unwrap();
    assert_eq!(result.statements.len(), 1);
    match &result.statements[0] {
        Stmt::Expression(Expr::Binary { left, operator, right }) => {
            assert_eq!(*operator, BinaryOp::Subtract);
            assert!(matches!(&**right, Expr::Literal(Value::Number(t)) if t == "2"));
            match &**left {
                Expr::Binary { left: il, operator: io, right: ir } => {
                    assert!(matches!(&**il, Expr::Literal(Value::Number(t)) if t == "8"));
                    assert_eq!(*io, BinaryOp::Subtract);
                    assert!(matches!(&**ir, Expr::Literal(Value::Number(t)) if t == "4"));
                }
                _ => panic!("Expected left-nested subtraction"),
            }
        }
        _ => panic!("Expected binary expression"),
    }
}

#[test]
fn test_right_associative_assignment() {
    // x = y = 3 nests to the right: x = (y = 3)
    let result = parse_program("x = y = 3;").unwrap();
    assert_eq!(result.statements.len(), 1);
    match &result.statements[0] {
        Stmt::Expression(Expr::Assignment { name, value }) => {
            assert_eq!(name, "x");
            match &**value {
                Expr::Assignment { name: inner_name, value: inner_value } => {
                    assert_eq!(inner_name, "y");
                    assert!(
                        matches!(&**inner_value, Expr::Literal(Value::Number(t)) if t == "3")
                    );
                }
                _ => panic!("Expected nested assignment"),
            }
        }
        _ => panic!("Expected assignment expression"),
    }
}

#[test]
fn test_nested_unary() {
    // !!true nests to the right: !(!true)
    let result = parse_program("!!true;").unwrap();
    assert_eq!(result.statements.len(), 1);
    match &result.statements[0] {
        Stmt::Expression(Expr::Unary { operator, operand }) => {
            assert_eq!(*operator, UnaryOp::Not);
            match &**operand {
                Expr::Unary { operator: inner_op, operand: inner } => {
                    assert_eq!(*inner_op, UnaryOp::Not);
                    assert!(matches!(&**inner, Expr::Literal(Value::Bool(true))));
                }
                _ => panic!("Expected nested unary"),
            }
        }
        _ => panic!("Expected unary expression"),
    }
}

#[test]
fn test_logical_precedence() {
    // and binds tighter than or: a or b and c  ==  a or (b and c)
    let result = parse_program("a or b and c;").unwrap();
    match &result.statements[0] {
        Stmt::Expression(Expr::Binary { left, operator, right }) => {
            assert_eq!(*operator, BinaryOp::Or);
            assert!(matches!(&**left, Expr::Variable(n) if n == "a"));
            assert!(
                matches!(&**right, Expr::Binary { operator: BinaryOp::And, .. })
            );
        }
        _ => panic!("Expected binary expression"),
    }
}

#[test]
fn test_decimal_number_literal() {
    let result = parse_program("print 42.5;").unwrap();
    match &result.statements[0] {
        Stmt::Print(Expr::Literal(Value::Number(t))) => assert_eq!(t, "42.5"),
        _ => panic!("Expected print of a number"),
    }
}

#[test]
fn test_string_with_escaped_quote() {
    // A backslash escapes the following character inside a string
    // literal; the stored contents keep the escape sequence verbatim.
    let result = parse_program(r#"print "a\"b";"#).unwrap();
    match &result.statements[0] {
        Stmt::Print(Expr::Literal(Value::String(s))) => assert_eq!(s, "a\\\"b"),
        _ => panic!("Expected print of a string"),
    }
}
