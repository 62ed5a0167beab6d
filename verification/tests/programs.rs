//! Whole-program tests: statement counting, comments and whitespace,
//! nesting, edge cases, the larger sample program, and the benchmark
//! harness.

use lox_parser::bench::benchmark_parser;
use lox_parser::{parse_program, BinaryOp, Expr, Stmt, Value};

#[test]
fn test_simple_literals() {
    let test_cases = vec![
        ("42;", 1, "number literal"),
        (r#""hello";"#, 1, "string literal"),
        ("true;", 1, "boolean literal"),
        ("nil;", 1, "nil literal"),
    ];

    for (input, expected_statements, description) in test_cases {
        match parse_program(input) {
            Ok(program) => {
                assert_eq!(
                    program.statements.len(),
                    expected_statements,
                    "Failed for {}: {}",
                    description,
                    input
                );
            }
            Err(e) => panic!("Parse failed for {}: {}", description, e.message()),
        }
    }
}

#[test]
fn test_print_statements() {
    let test_cases = vec![
        (r#"print "hello";"#, "hello"),
        (r#"print "world";"#, "world"),
        (r#"print "test 123";"#, "test 123"),
    ];

    for (input, expected_string) in test_cases {
        match parse_program(input) {
            Ok(program) => {
                assert_eq!(program.statements.len(), 1);
                match &program.statements[0] {
                    Stmt::Print(Expr::Literal(Value::String(s))) => {
                        assert_eq!(s, expected_string);
                    }
                    _ => panic!("Expected print statement with string literal"),
                }
            }
            Err(e) => panic!("Parse failed: {}", e.message()),
        }
    }
}

#[test]
fn test_variable_declarations() {
    let test_cases = vec![
        ("var x = 42;", "x", Some(Value::Number("42".to_string()))),
        ("var name = \"test\";", "name", Some(Value::String("test".to_string()))),
        ("var flag = true;", "flag", Some(Value::Bool(true))),
        ("var empty = nil;", "empty", Some(Value::Nil)),
    ];

    for (input, expected_name, expected_value) in test_cases {
        match parse_program(input) {
            Ok(program) => {
                assert_eq!(program.statements.len(), 1);
                match &program.statements[0] {
                    Stmt::VarDeclaration { name, initializer } => {
                        assert_eq!(name, expected_name);
                        match (initializer, &expected_value) {
                            (Some(Expr::Literal(actual)), Some(expected)) => {
                                assert_eq!(actual, expected);
                            }
                            (None, None) => {}
                            _ => panic!("Initializer mismatch"),
                        }
                    }
                    _ => panic!("Expected variable declaration"),
                }
            }
            Err(e) => panic!("Parse failed: {}", e.message()),
        }
    }
}

#[test]
fn test_arithmetic_expressions() {
    let test_cases = vec![
        ("1 + 2;", BinaryOp::Add),
        ("5 - 3;", BinaryOp::Subtract),
        ("4 * 6;", BinaryOp::Multiply),
        ("8 / 2;", BinaryOp::Divide),
    ];

    for (input, expected_op) in test_cases {
        match parse_program(input) {
            Ok(program) => {
                assert_eq!(program.statements.len(), 1);
                match &program.statements[0] {
                    Stmt::Expression(Expr::Binary { left: _, operator, right: _ }) => {
                        assert_eq!(*operator, expected_op);
                    }
                    _ => panic!("Expected binary expression"),
                }
            }
            Err(e) => panic!("Parse failed: {}", e.message()),
        }
    }
}

#[test]
fn test_complex_programs() {
    let complex_input = r#"
            var a = 10;
            var b = 20;
            var sum = a + b;
            print sum;
        "#;

    match parse_program(complex_input) {
        Ok(program) => {
            assert_eq!(program.statements.len(), 4);

            match &program.statements[0] {
                Stmt::VarDeclaration { name, initializer } => {
                    assert_eq!(name, "a");
                    assert!(
                        matches!(initializer, Some(Expr::Literal(Value::Number(t))) if t == "10")
                    );
                }
                _ => panic!("Expected variable declaration"),
            }

            match &program.statements[3] {
                Stmt::Print(Expr::Variable(var_name)) => {
                    assert_eq!(var_name, "sum");
                }
                _ => panic!("Expected print statement"),
            }
        }
        Err(e) => panic!("Parse failed: {}", e.message()),
    }
}

#[test]
fn test_comments_ignored() {
    let input_with_comments = r#"
            // This is a comment
            var x = 42; // End of line comment
            // Another comment
            print x;
        "#;

    match parse_program(input_with_comments) {
        Ok(program) => {
            assert_eq!(program.statements.len(), 2);
        }
        Err(e) => panic!("Parse failed: {}", e.message()),
    }
}

#[test]
fn test_error_cases() {
    let invalid_inputs = vec![
        ("var = 42;", "missing variable name"),
        ("print", "missing semicolon"),
        ("42 +;", "incomplete expression"),
        ("var x = ;", "missing initializer"),
    ];

    for (input, description) in invalid_inputs {
        assert!(
            parse_program(input).is_err(),
            "Expected '{}' ({}) to fail but it succeeded",
            input,
            description
        );
    }
}

#[test]
fn test_performance_benchmark() {
    let input = "var x = (1 + 2) * 3; print x;";
    let iterations = 1000;

    let (elapsed, successes) = benchmark_parser(input, iterations);

    assert_eq!(successes, iterations, "All iterations should succeed");

    let avg_time = elapsed / iterations as u32;
    println!("Benchmark: {} iterations in {:?}", iterations, elapsed);
    println!("Average time per parse: {:?}", avg_time);

    assert!(avg_time.as_millis() < 1, "Parser should be faster than 1ms per parse");
}

#[test]
fn test_comprehensive_lox_features() {
    let test_cases = vec![
        ("Simple literal", "42;", 1),
        ("String literal", r#""Hello, world!";"#, 1),
        ("Print statement", r#"print "Hello, world!";"#, 1),
        ("Variable declaration", "var x = 42;", 1),
        ("Variable assignment", "var x = 10; x = 20;", 2),
        ("Arithmetic expression", "1 + 2 * 3;", 1),
        ("Comparison expression", "5 > 3;", 1),
        ("Logical expression", "true and false;", 1),
        ("Grouped expression", "(1 + 2) * 3;", 1),
        ("Complex expression", "var a = 10; var b = 20; var sum = a + b; print sum;", 4),
        ("Boolean literals", "true; false; nil;", 3),
        ("Unary expressions", "-42; !true;", 2),
        ("Complex arithmetic", "1 + 2 * 3 - 4 / 2;", 1),
    ];

    let mut passed = 0;
    let mut failed = 0;

    for (name, input, expected_statements) in test_cases {
        match parse_program(input) {
            Ok(program) => {
                if program.statements.len() == expected_statements {
                    passed += 1;
                } else {
                    println!(
                        "{}: expected {} statements, got {}",
                        name,
                        expected_statements,
                        program.statements.len()
                    );
                    failed += 1;
                }
            }
            Err(e) => {
                println!("{}: parse failed - {}", name, e.message());
                failed += 1;
            }
        }
    }

    let success_rate = (passed as f64 / (passed + failed) as f64) * 100.0;
    assert!(success_rate >= 80.0, "Success rate should be at least 80%, got {:.1}%", success_rate);
}

#[test]
fn test_comments_handling() {
    let test_cases = vec![
        ("Single line comment", "// This is a comment\nprint 42;", 1),
        ("End of line comment", r#"print "hello"; // comment"#, 1),
        (
            "Multiple comments",
            r#"
            // First comment
            var x = 10; // Variable
            // Another comment
            print x; // Print it
        "#,
            2,
        ),
    ];

    for (name, input, expected_statements) in test_cases {
        match parse_program(input) {
            Ok(program) => {
                assert_eq!(
                    program.statements.len(),
                    expected_statements,
                    "Failed for {}: expected {} statements, got {}",
                    name,
                    expected_statements,
                    program.statements.len()
                );
            }
            Err(e) => panic!("Parse failed for {}: {}", name, e.message()),
        }
    }
}

#[test]
fn test_whitespace_handling() {
    let test_cases = vec![
        ("No whitespace", "var x=42;print x;", 2),
        ("Lots of whitespace", "   var    x   =   42   ;   print   x   ;   ", 2),
        ("Newlines", "var x = 42;\nprint x;", 2),
        ("Mixed whitespace", "\t\nvar x = 42;\n\t\nprint x;\n\t", 2),
    ];

    for (name, input, expected_statements) in test_cases {
        match parse_program(input) {
            Ok(program) => {
                assert_eq!(
                    program.statements.len(),
                    expected_statements,
                    "Failed for {}: expected {} statements, got {}",
                    name,
                    expected_statements,
                    program.statements.len()
                );
            }
            Err(e) => panic!("Parse failed for {}: {}", name, e.message()),
        }
    }
}

#[test]
fn test_nested_expressions() {
    let test_cases = vec![
        ("Simple grouping", "(42)", 1),
        ("Nested grouping", "((42))", 1),
        ("Complex nesting", "(1 + (2 * (3 + 4)))", 1),
        ("Mixed operators", "1 + 2 * 3 - 4 / 2", 1),
    ];

    for (name, input, expected_statements) in test_cases {
        let full_input = format!("{};", input);

        match parse_program(&full_input) {
            Ok(program) => {
                assert_eq!(
                    program.statements.len(),
                    expected_statements,
                    "Failed for {}: expected {} statements, got {}",
                    name,
                    expected_statements,
                    program.statements.len()
                );
            }
            Err(e) => panic!("Parse failed for {}: {}", name, e.message()),
        }
    }
}

#[test]
fn test_edge_cases() {
    let test_cases = vec![
        ("Empty program", "", 0),
        ("Only whitespace", "   \n\t  ", 0),
        ("Only comments", "// Just a comment\n// Another comment", 0),
        ("Minimal statement", "nil;", 1),
    ];

    for (name, input, expected_statements) in test_cases {
        match parse_program(input) {
            Ok(program) => {
                assert_eq!(
                    program.statements.len(),
                    expected_statements,
                    "Failed for {}: expected {} statements, got {}",
                    name,
                    expected_statements,
                    program.statements.len()
                );
            }
            Err(e) => panic!("Parse failed for {}: {}", name, e.message()),
        }
    }
}

#[test]
fn test_real_world_program() {
    let program = r#"
        // A simple program
        var greeting = "Hello";
        var name = "World";
        var message = greeting + ", " + name + "!";
        print message;

        var x = 10;
        var y = 20;
        var sum = x + y;
        var product = x * y;

        print "Sum: " + sum;
        print "Product: " + product;

        var isPositive = sum > 0;
        print isPositive;
    "#;

    match parse_program(program) {
        Ok(parsed) => {
            assert!(parsed.statements.len() >= 8, "Should have at least 8 statements");

            let mut var_decls = 0;
            let mut prints = 0;

            for stmt in &parsed.statements {
                match stmt {
                    Stmt::VarDeclaration { .. } => var_decls += 1,
                    Stmt::Print(_) => prints += 1,
                    Stmt::Expression(_) => {}
                }
            }

            assert!(var_decls > 0, "Should have variable declarations");
            assert!(prints > 0, "Should have print statements");
        }
        Err(e) => panic!("Real-world program should parse successfully: {}", e.message()),
    }
}

#[test]
fn test_reparse_is_structurally_equal() {
    // Parsing the same input twice yields structurally equal programs.
    let input = "var a = 10; var b = 20; var sum = a + b; print sum;";
    let first = parse_program(input).unwrap();
    let second = parse_program(input).unwrap();
    assert_eq!(first, second);
}

#[test]
fn test_comment_insertion_preserves_ast() {
    // Inserting a comment line or runs of whitespace between tokens
    // never changes the resulting tree.
    let plain = "var x = 42;\nprint x;";
    let with_trivia = "// leading comment\n  var \t x   =\n// midway comment\n 42 ;\nprint  x ;";
    let a = parse_program(plain).unwrap();
    let b = parse_program(with_trivia).unwrap();
    assert_eq!(a, b);
}
