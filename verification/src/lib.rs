//! A verified front end for a small expression-oriented scripting language
//! (a Lox subset): a fault-tolerant lexer and a recursive-descent,
//! precedence-climbing parser that turns source text into an abstract
//! syntax tree, with position-accurate structured errors.
//!
//! The grammar, spelled out in `parser`, is:
//!
//! ```text
//! program     := statement* EOF
//! statement   := printStmt | varDecl | exprStmt
//! printStmt   := "print" expression ";"
//! varDecl     := "var" IDENTIFIER ( "=" expression )? ";"
//! exprStmt    := expression ";"
//! expression  := assignment
//! assignment  := IDENTIFIER "=" assignment | logic_or
//! logic_or    := logic_and ( "or"  logic_and )*
//! logic_and   := equality  ( "and" equality  )*
//! equality    := comparison ( ("==" | "!=") comparison )*
//! comparison  := term ( (">" | ">=" | "<" | "<=") term )*
//! term        := factor ( ("+" | "-") factor )*
//! factor      := unary ( ("*" | "/") unary )*
//! unary       := ("!" | "-") unary | primary
//! primary     := NUMBER | STRING | "true" | "false" | "nil"
//!              | IDENTIFIER | "(" expression ")"
//! ```
//!
//! Every executable function is specified against a mathematical model of
//! the same grammar (`lexer::spec_lex`, `parser::spec_parse`), so the
//! returned tree is pinned down exactly for every input.

pub mod ast;
pub mod bench;
pub mod laws;
pub mod lexer;
pub mod parser;
pub mod token;

pub use ast::{BinaryOp, Expr, Program, Stmt, UnaryOp, Value};
pub use bench::benchmark_parser;
pub use lexer::tokenize;
pub use parser::{parse_program, Context};
pub use token::{Diagnostic, LexerError, ParseError, Span, SyntaxErrorKind, Token};
