//! Error reporting and lexing tests: spans point at the offending
//! token, lexical errors are collected without stopping the scan, and
//! each error kind arises exactly where it should.

use lox_parser::{
    parse_program, tokenize, Diagnostic, Expr, LexerError, Span, Stmt, SyntaxErrorKind, Token,
};

#[test]
fn test_error_locality() {
    // "var x;" succeeds with no initializer.
    let ok = parse_program("var x;").unwrap();
    assert!(matches!(&ok.statements[0], Stmt::VarDeclaration { initializer: None, .. }));

    // "var = 42;" fails with a syntax error whose span points at `=`.
    let err = parse_program("var = 42;").unwrap_err();
    assert_eq!(err.kind, SyntaxErrorKind::ExpectedVarName);
    assert_eq!(err.span, Span { start: 4, end: 5 });

    // "print 42" (missing `;`) fails at end of input.
    let err = parse_program("print 42").unwrap_err();
    assert_eq!(err.kind, SyntaxErrorKind::ExpectedSemicolon);
    assert_eq!(err.span, Span { start: 8, end: 8 });
}

#[test]
fn test_missing_right_paren() {
    let err = parse_program("(1 + 2;").unwrap_err();
    assert_eq!(err.kind, SyntaxErrorKind::ExpectedRightParen);
    assert_eq!(err.span, Span { start: 6, end: 7 });
}

#[test]
fn test_missing_operand() {
    let err = parse_program("42 +;").unwrap_err();
    assert_eq!(err.kind, SyntaxErrorKind::ExpectedExpression);
    assert_eq!(err.span, Span { start: 4, end: 5 });
}

#[test]
fn test_keywords_are_reserved() {
    // `print` and `var` can never be variable names.
    let err = parse_program("var print = 1;").unwrap_err();
    assert_eq!(err.kind, SyntaxErrorKind::ExpectedVarName);

    // An identifier that merely starts like a keyword is an identifier.
    let ok = parse_program("printer;").unwrap();
    assert!(matches!(&ok.statements[0], Stmt::Expression(Expr::Variable(n)) if n == "printer"));
}

#[test]
fn test_tokenize_kinds_and_spans() {
    let mut diags: Vec<Diagnostic> = Vec::new();
    let (kinds, spans) = tokenize("var x = 1;", &mut diags);
    assert_eq!(
        kinds,
        vec![
            Token::Var,
            Token::Identifier,
            Token::Equal,
            Token::Number,
            Token::Semicolon,
            Token::Eof,
        ]
    );
    assert_eq!(spans[0], Span { start: 0, end: 3 });
    assert_eq!(spans[1], Span { start: 4, end: 5 });
    assert_eq!(spans[5], Span { start: 10, end: 10 });
    assert!(diags.is_empty());
}

#[test]
fn test_tokenize_two_character_operators() {
    let mut diags: Vec<Diagnostic> = Vec::new();
    let (kinds, _) = tokenize("<= >= == != < > = !", &mut diags);
    assert_eq!(
        kinds,
        vec![
            Token::LessEqual,
            Token::GreaterEqual,
            Token::EqualEqual,
            Token::BangEqual,
            Token::Less,
            Token::Greater,
            Token::Equal,
            Token::Bang,
            Token::Eof,
        ]
    );
    assert!(diags.is_empty());
}

#[test]
fn test_tokenize_number_does_not_take_trailing_dot() {
    let mut diags: Vec<Diagnostic> = Vec::new();
    let (kinds, spans) = tokenize("42.", &mut diags);
    assert_eq!(kinds, vec![Token::Number, Token::Error, Token::Eof]);
    assert_eq!(spans[0], Span { start: 0, end: 2 });
    assert_eq!(spans[1], Span { start: 2, end: 3 });
    assert_eq!(diags.len(), 1);
    assert_eq!(diags[0].error, LexerError::Invalid);
}

#[test]
fn test_tokenize_unrecognized_character() {
    let mut diags: Vec<Diagnostic> = Vec::new();
    let (kinds, spans) = tokenize("@", &mut diags);
    assert_eq!(kinds, vec![Token::Error, Token::Eof]);
    assert_eq!(spans[0], Span { start: 0, end: 1 });
    assert_eq!(diags.len(), 1);
    assert_eq!(diags[0], LexerError::Invalid.into_diagnostic(Span { start: 0, end: 1 }));
    assert_eq!(diags[0].message(), "invalid token");
}

#[test]
fn test_tokenize_unterminated_string() {
    // An unterminated string contributes only an Error token spanning
    // from the opening quote to end of input, plus a diagnostic.
    let mut diags: Vec<Diagnostic> = Vec::new();
    let (kinds, spans) = tokenize("print \"abc", &mut diags);
    assert_eq!(kinds, vec![Token::Print, Token::Error, Token::Eof]);
    assert_eq!(spans[1], Span { start: 6, end: 10 });
    assert_eq!(diags.len(), 1);
    assert_eq!(diags[0].error, LexerError::UnterminatedString);
    assert_eq!(diags[0].message(), "unterminated string literal");
}

#[test]
fn test_lexing_continues_past_errors() {
    // Lexing is fault-tolerant: scanning goes on after a stray symbol.
    let mut diags: Vec<Diagnostic> = Vec::new();
    let (kinds, _) = tokenize("1 @ 2", &mut diags);
    assert_eq!(kinds, vec![Token::Number, Token::Error, Token::Number, Token::Eof]);
    assert_eq!(diags.len(), 1);
}

#[test]
fn test_parse_rejects_lexical_error() {
    // The parser fails when it reaches the Error token, with its span.
    let err = parse_program("@;").unwrap_err();
    assert_eq!(err.kind, SyntaxErrorKind::ExpectedExpression);
    assert_eq!(err.span, Span { start: 0, end: 1 });

    let err = parse_program("print \"abc").unwrap_err();
    assert_eq!(err.kind, SyntaxErrorKind::ExpectedExpression);
    assert_eq!(err.span, Span { start: 6, end: 10 });
}

#[test]
fn test_parse_error_messages() {
    let err = parse_program("print 42").unwrap_err();
    assert_eq!(err.message(), "expected ';' after statement");
    let err = parse_program(";").unwrap_err();
    assert_eq!(err.kind, SyntaxErrorKind::ExpectedExpression);
    assert_eq!(err.message(), "expected expression");
}

#[test]
fn test_empty_and_whitespace_only_input() {
    assert_eq!(parse_program("").unwrap().statements.len(), 0);
    assert_eq!(parse_program("   \n\t  ").unwrap().statements.len(), 0);
}
