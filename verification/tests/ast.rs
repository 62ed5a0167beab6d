//! Tests of the tree types themselves: textual rendering, program
//! construction and mutation, and deep structural equality.

use lox_parser::{BinaryOp, Expr, Program, Stmt, UnaryOp, Value};

#[test]
fn test_value_display() {
    assert_eq!(Value::Nil.text(), "nil");
    assert_eq!(Value::Bool(true).text(), "true");
    assert_eq!(Value::Number("42.5".to_string()).text(), "42.5");
    assert_eq!(Value::String("hello".to_string()).text(), "\"hello\"");
}

#[test]
fn test_binary_op_display() {
    assert_eq!(BinaryOp::Add.text(), "+");
    assert_eq!(BinaryOp::Equal.text(), "==");
    assert_eq!(BinaryOp::And.text(), "and");
}

#[test]
fn test_unary_op_display() {
    assert_eq!(UnaryOp::Minus.text(), "-");
    assert_eq!(UnaryOp::Not.text(), "!");
}

#[test]
fn test_program_creation() {
    let stmt = Stmt::Print(Expr::Literal(Value::String("test".to_string())));
    let program = Program::new(vec![stmt]);

    assert_eq!(program.statements().len(), 1);
    assert!(!program.is_empty());
}

#[test]
fn test_program_mutation() {
    let mut program = Program::new(vec![]);
    assert!(program.is_empty());

    program.add_statement(Stmt::Print(Expr::Literal(Value::Nil)));
    assert_eq!(program.statements().len(), 1);
    assert!(!program.is_empty());
}

#[test]
fn test_expr_equality() {
    let expr1 = Expr::Binary {
        left: Box::new(Expr::Literal(Value::Number("1".to_string()))),
        operator: BinaryOp::Add,
        right: Box::new(Expr::Literal(Value::Number("2".to_string()))),
    };

    let expr2 = Expr::Binary {
        left: Box::new(Expr::Literal(Value::Number("1".to_string()))),
        operator: BinaryOp::Add,
        right: Box::new(Expr::Literal(Value::Number("2".to_string()))),
    };

    assert_eq!(expr1, expr2);
}

#[test]
fn test_expr_inequality() {
    let one = Expr::Literal(Value::Number("1".to_string()));
    let two = Expr::Literal(Value::Number("2".to_string()));
    assert_ne!(one, two);

    let grouped = Expr::Grouping(Box::new(Expr::Literal(Value::Number("1".to_string()))));
    assert_ne!(grouped, Expr::Literal(Value::Number("1".to_string())));
}

#[test]
fn test_program_equality_is_deep() {
    let a = Program::new(vec![Stmt::VarDeclaration {
        name: "x".to_string(),
        initializer: Some(Expr::Literal(Value::Number("42".to_string()))),
    }]);
    let b = Program::new(vec![Stmt::VarDeclaration {
        name: "x".to_string(),
        initializer: Some(Expr::Literal(Value::Number("42".to_string()))),
    }]);
    let c = Program::new(vec![Stmt::VarDeclaration {
        name: "x".to_string(),
        initializer: None,
    }]);
    assert_eq!(a, b);
    assert_ne!(a, c);
}
