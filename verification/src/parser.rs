//! The parser: a recursive-descent, precedence-climbing reading of the
//! token sequence into a [`Program`].
//!
//! The grammar is a ten-level expression chain over three statement
//! forms; each binary level parses its left operand one tier tighter and
//! then folds `(operator, operand)` pairs left-associatively, while
//! assignment and unary are right-recursive. Statement dispatch is by
//! first-token lookahead, which makes the keywords unconditionally
//! reserved: an identifier spelled `print` or `var` can never be parsed
//! as a variable reference.
//!
//! `sp_program` and the `sp_*` functions below are the mathematical
//! definition of that grammar over token signatures (kind and text only,
//! never spans — so token positions provably cannot influence the tree).
//! Parsing fails as a whole at the first structural error; the reported
//! span is the offending token's. The executable parser `parse_program`
//! is proved to return exactly this definition's result.

use vstd::prelude::*;

use crate::ast::{
    expr_level, stmt_well_leveled, well_leveled, BinaryOp, Expr, Program, SpecExpr, SpecStmt,
    SpecValue, Stmt, UnaryOp, Value,
};
use crate::lexer::{lemma_lex_wf, spec_lex, token_wf, tokenize, tokens_match};
use crate::token::{
    sig_of, sigs, Diagnostic, LexedToken, ParseError, Span, SpecError, SyntaxErrorKind, Token,
    TokenSig,
};

verus! {

/// A structural failure during recursive descent: what was required and
/// the index of the token where it was found missing. The index is
/// resolved to a source span only at the top level, so the descent itself
/// never observes spans.
pub struct SpecFail {
    pub kind: SyntaxErrorKind,
    pub at: int,
}

/// How many tokens remain at position `p` (zero once past the end); the
/// first component of every descent function's termination measure.
pub open spec fn toks_left(t: Seq<TokenSig>, p: int) -> int {
    if p <= t.len() {
        t.len() - p
    } else {
        0
    }
}

/// A well-formed token stream: non-empty, with exactly one `Eof`, at the
/// end. `spec_lex` always produces one.
pub open spec fn toks_wf(t: Seq<TokenSig>) -> bool {
    &&& t.len() >= 1
    &&& t[t.len() - 1].kind == Token::Eof
    &&& forall|k: int| 0 <= k < t.len() - 1 ==> (#[trigger] t[k]).kind != Token::Eof
}

/// The operator parsed at the `or` tier.
pub open spec fn op_at_or(k: Token) -> Option<BinaryOp> {
    if k == Token::Or {
        Some(BinaryOp::Or)
    } else {
        None
    }
}

/// The operator parsed at the `and` tier.
pub open spec fn op_at_and(k: Token) -> Option<BinaryOp> {
    if k == Token::And {
        Some(BinaryOp::And)
    } else {
        None
    }
}

/// The operators parsed at the equality tier.
pub open spec fn op_at_equality(k: Token) -> Option<BinaryOp> {
    if k == Token::EqualEqual {
        Some(BinaryOp::Equal)
    } else if k == Token::BangEqual {
        Some(BinaryOp::NotEqual)
    } else {
        None
    }
}

/// The operators parsed at the comparison tier.
pub open spec fn op_at_comparison(k: Token) -> Option<BinaryOp> {
    if k == Token::Greater {
        Some(BinaryOp::Greater)
    } else if k == Token::GreaterEqual {
        Some(BinaryOp::GreaterEqual)
    } else if k == Token::Less {
        Some(BinaryOp::Less)
    } else if k == Token::LessEqual {
        Some(BinaryOp::LessEqual)
    } else {
        None
    }
}

/// The operators parsed at the additive tier.
pub open spec fn op_at_term(k: Token) -> Option<BinaryOp> {
    if k == Token::Plus {
        Some(BinaryOp::Add)
    } else if k == Token::Minus {
        Some(BinaryOp::Subtract)
    } else {
        None
    }
}

/// The operators parsed at the multiplicative tier.
pub open spec fn op_at_factor(k: Token) -> Option<BinaryOp> {
    if k == Token::Star {
        Some(BinaryOp::Multiply)
    } else if k == Token::Slash {
        Some(BinaryOp::Divide)
    } else {
        None
    }
}

/// A binary node from an accumulated left operand, an operator and a
/// freshly parsed right operand.
pub open spec fn binary(acc: SpecExpr, op: BinaryOp, rhs: SpecExpr) -> SpecExpr {
    SpecExpr::Binary { left: Box::new(acc), operator: op, right: Box::new(rhs) }
}

/// `primary := NUMBER | STRING | "true" | "false" | "nil" | IDENTIFIER
/// | "(" expression ")"`. Anything else is the error "expected
/// expression" at the current token. (The never-taken branches guard
/// termination; `lemma_props_primary` and its siblings show they are
/// dead.)
#[verifier::opaque]
pub open spec fn sp_primary(t: Seq<TokenSig>, p: int) -> Result<(SpecExpr, int), SpecFail>
    decreases toks_left(t, p), 0int,
{
    if 0 <= p < t.len() {
        let k = t[p].kind;
        if k == Token::Number {
            Ok((SpecExpr::Literal(SpecValue::Number(t[p].text)), p + 1))
        } else if k == Token::StringLit {
            Ok((SpecExpr::Literal(SpecValue::Str(t[p].text)), p + 1))
        } else if k == Token::True {
            Ok((SpecExpr::Literal(SpecValue::Bool(true)), p + 1))
        } else if k == Token::False {
            Ok((SpecExpr::Literal(SpecValue::Bool(false)), p + 1))
        } else if k == Token::Nil {
            Ok((SpecExpr::Literal(SpecValue::Nil), p + 1))
        } else if k == Token::Identifier {
            Ok((SpecExpr::Variable(t[p].text), p + 1))
        } else if k == Token::LeftParen {
            match sp_assignment(t, p + 1) {
                Ok((e, p2)) => if 0 <= p2 < t.len() && t[p2].kind == Token::RightParen {
                    Ok((SpecExpr::Grouping(Box::new(e)), p2 + 1))
                } else {
                    Err(SpecFail { kind: SyntaxErrorKind::ExpectedRightParen, at: p2 })
                },
                Err(f) => Err(f),
            }
        } else {
            Err(SpecFail { kind: SyntaxErrorKind::ExpectedExpression, at: p })
        }
    } else {
        arbitrary()
    }
}

/// `unary := ("!" | "-") unary | primary` — right-recursive.
#[verifier::opaque]
pub open spec fn sp_unary(t: Seq<TokenSig>, p: int) -> Result<(SpecExpr, int), SpecFail>
    decreases toks_left(t, p), 1int,
{
    if 0 <= p < t.len() && (t[p].kind == Token::Bang || t[p].kind == Token::Minus) {
        let op = if t[p].kind == Token::Bang {
            UnaryOp::Not
        } else {
            UnaryOp::Minus
        };
        match sp_unary(t, p + 1) {
            Ok((operand, p2)) => Ok(
                (SpecExpr::Unary { operator: op, operand: Box::new(operand) }, p2),
            ),
            Err(f) => Err(f),
        }
    } else {
        sp_primary(t, p)
    }
}

/// The left-associative fold at the multiplicative tier: zero or more
/// `("*" | "/") unary` continuations of `acc`.
#[verifier::opaque]
pub open spec fn sp_factor_more(t: Seq<TokenSig>, p: int, acc: SpecExpr) -> Result<
    (SpecExpr, int),
    SpecFail,
>
    decreases toks_left(t, p), 2int,
{
    if 0 <= p < t.len() && op_at_factor(t[p].kind) is Some {
        match sp_unary(t, p + 1) {
            Ok((rhs, p2)) => if p < p2 {
                sp_factor_more(t, p2, binary(acc, op_at_factor(t[p].kind)->0, rhs))
            } else {
                arbitrary()
            },
            Err(f) => Err(f),
        }
    } else {
        Ok((acc, p))
    }
}

/// `factor := unary ( ("*" | "/") unary )*`.
#[verifier::opaque]
pub open spec fn sp_factor(t: Seq<TokenSig>, p: int) -> Result<(SpecExpr, int), SpecFail>
    decreases toks_left(t, p), 3int,
{
    match sp_unary(t, p) {
        Ok((e, p1)) => if p <= p1 {
            sp_factor_more(t, p1, e)
        } else {
            arbitrary()
        },
        Err(f) => Err(f),
    }
}

/// The left-associative fold at the additive tier.
#[verifier::opaque]
pub open spec fn sp_term_more(t: Seq<TokenSig>, p: int, acc: SpecExpr) -> Result<
    (SpecExpr, int),
    SpecFail,
>
    decreases toks_left(t, p), 4int,
{
    if 0 <= p < t.len() && op_at_term(t[p].kind) is Some {
        match sp_factor(t, p + 1) {
            Ok((rhs, p2)) => if p < p2 {
                sp_term_more(t, p2, binary(acc, op_at_term(t[p].kind)->0, rhs))
            } else {
                arbitrary()
            },
            Err(f) => Err(f),
        }
    } else {
        Ok((acc, p))
    }
}

/// `term := factor ( ("+" | "-") factor )*`.
#[verifier::opaque]
pub open spec fn sp_term(t: Seq<TokenSig>, p: int) -> Result<(SpecExpr, int), SpecFail>
    decreases toks_left(t, p), 5int,
{
    match sp_factor(t, p) {
        Ok((e, p1)) => if p <= p1 {
            sp_term_more(t, p1, e)
        } else {
            arbitrary()
        },
        Err(f) => Err(f),
    }
}

/// The left-associative fold at the comparison tier.
#[verifier::opaque]
pub open spec fn sp_comparison_more(t: Seq<TokenSig>, p: int, acc: SpecExpr) -> Result<
    (SpecExpr, int),
    SpecFail,
>
    decreases toks_left(t, p), 6int,
{
    if 0 <= p < t.len() && op_at_comparison(t[p].kind) is Some {
        match sp_term(t, p + 1) {
            Ok((rhs, p2)) => if p < p2 {
                sp_comparison_more(t, p2, binary(acc, op_at_comparison(t[p].kind)->0, rhs))
            } else {
                arbitrary()
            },
            Err(f) => Err(f),
        }
    } else {
        Ok((acc, p))
    }
}

/// `comparison := term ( (">" | ">=" | "<" | "<=") term )*`.
#[verifier::opaque]
pub open spec fn sp_comparison(t: Seq<TokenSig>, p: int) -> Result<(SpecExpr, int), SpecFail>
    decreases toks_left(t, p), 7int,
{
    match sp_term(t, p) {
        Ok((e, p1)) => if p <= p1 {
            sp_comparison_more(t, p1, e)
        } else {
            arbitrary()
        },
        Err(f) => Err(f),
    }
}

/// The left-associative fold at the equality tier.
#[verifier::opaque]
pub open spec fn sp_equality_more(t: Seq<TokenSig>, p: int, acc: SpecExpr) -> Result<
    (SpecExpr, int),
    SpecFail,
>
    decreases toks_left(t, p), 8int,
{
    if 0 <= p < t.len() && op_at_equality(t[p].kind) is Some {
        match sp_comparison(t, p + 1) {
            Ok((rhs, p2)) => if p < p2 {
                sp_equality_more(t, p2, binary(acc, op_at_equality(t[p].kind)->0, rhs))
            } else {
                arbitrary()
            },
            Err(f) => Err(f),
        }
    } else {
        Ok((acc, p))
    }
}

/// `equality := comparison ( ("==" | "!=") comparison )*`.
#[verifier::opaque]
pub open spec fn sp_equality(t: Seq<TokenSig>, p: int) -> Result<(SpecExpr, int), SpecFail>
    decreases toks_left(t, p), 9int,
{
    match sp_comparison(t, p) {
        Ok((e, p1)) => if p <= p1 {
            sp_equality_more(t, p1, e)
        } else {
            arbitrary()
        },
        Err(f) => Err(f),
    }
}

/// The left-associative fold at the `and` tier.
#[verifier::opaque]
pub open spec fn sp_and_more(t: Seq<TokenSig>, p: int, acc: SpecExpr) -> Result<
    (SpecExpr, int),
    SpecFail,
>
    decreases toks_left(t, p), 10int,
{
    if 0 <= p < t.len() && op_at_and(t[p].kind) is Some {
        match sp_equality(t, p + 1) {
            Ok((rhs, p2)) => if p < p2 {
                sp_and_more(t, p2, binary(acc, BinaryOp::And, rhs))
            } else {
                arbitrary()
            },
            Err(f) => Err(f),
        }
    } else {
        Ok((acc, p))
    }
}

/// `logic_and := equality ( "and" equality )*`.
#[verifier::opaque]
pub open spec fn sp_logic_and(t: Seq<TokenSig>, p: int) -> Result<(SpecExpr, int), SpecFail>
    decreases toks_left(t, p), 11int,
{
    match sp_equality(t, p) {
        Ok((e, p1)) => if p <= p1 {
            sp_and_more(t, p1, e)
        } else {
            arbitrary()
        },
        Err(f) => Err(f),
    }
}

/// The left-associative fold at the `or` tier.
#[verifier::opaque]
pub open spec fn sp_or_more(t: Seq<TokenSig>, p: int, acc: SpecExpr) -> Result<
    (SpecExpr, int),
    SpecFail,
>
    decreases toks_left(t, p), 12int,
{
    if 0 <= p < t.len() && op_at_or(t[p].kind) is Some {
        match sp_logic_and(t, p + 1) {
            Ok((rhs, p2)) => if p < p2 {
                sp_or_more(t, p2, binary(acc, BinaryOp::Or, rhs))
            } else {
                arbitrary()
            },
            Err(f) => Err(f),
        }
    } else {
        Ok((acc, p))
    }
}

/// `logic_or := logic_and ( "or" logic_and )*`.
#[verifier::opaque]
pub open spec fn sp_logic_or(t: Seq<TokenSig>, p: int) -> Result<(SpecExpr, int), SpecFail>
    decreases toks_left(t, p), 13int,
{
    match sp_logic_and(t, p) {
        Ok((e, p1)) => if p <= p1 {
            sp_or_more(t, p1, e)
        } else {
            arbitrary()
        },
        Err(f) => Err(f),
    }
}

/// `assignment := IDENTIFIER "=" assignment | logic_or` —
/// right-recursive, committed to by a two-token peek: only an identifier
/// immediately followed by `=` starts an assignment; otherwise the
/// identifier is an ordinary variable reference inside `logic_or`.
#[verifier::opaque]
pub open spec fn sp_assignment(t: Seq<TokenSig>, p: int) -> Result<(SpecExpr, int), SpecFail>
    decreases toks_left(t, p), 14int,
{
    if 0 <= p < t.len() && t[p].kind == Token::Identifier && p + 1 < t.len() && t[p + 1].kind
        == Token::Equal {
        match sp_assignment(t, p + 2) {
            Ok((v, p2)) => Ok(
                (SpecExpr::Assignment { name: t[p].text, value: Box::new(v) }, p2),
            ),
            Err(f) => Err(f),
        }
    } else {
        sp_logic_or(t, p)
    }
}

/// `expression := assignment`.
#[verifier::opaque]
pub open spec fn sp_expression(t: Seq<TokenSig>, p: int) -> Result<(SpecExpr, int), SpecFail> {
    sp_assignment(t, p)
}

/// One statement, dispatched on its first token: `print` starts a print
/// statement, `var` a declaration, anything else an expression
/// statement. Each form requires its terminating `;`; its absence is
/// reported at the token found instead.
#[verifier::opaque]
pub open spec fn sp_statement(t: Seq<TokenSig>, p: int) -> Result<(SpecStmt, int), SpecFail> {
    if 0 <= p < t.len() {
        let k = t[p].kind;
        if k == Token::Print {
            match sp_expression(t, p + 1) {
                Ok((e, p1)) => if 0 <= p1 < t.len() && t[p1].kind == Token::Semicolon {
                    Ok((SpecStmt::Print(e), p1 + 1))
                } else {
                    Err(SpecFail { kind: SyntaxErrorKind::ExpectedSemicolon, at: p1 })
                },
                Err(f) => Err(f),
            }
        } else if k == Token::Var {
            if p + 1 < t.len() && t[p + 1].kind == Token::Identifier {
                if p + 2 < t.len() && t[p + 2].kind == Token::Equal {
                    match sp_expression(t, p + 3) {
                        Ok((e, p1)) => if 0 <= p1 < t.len() && t[p1].kind == Token::Semicolon {
                            Ok(
                                (
                                    SpecStmt::VarDeclaration {
                                        name: t[p + 1].text,
                                        initializer: Some(e),
                                    },
                                    p1 + 1,
                                ),
                            )
                        } else {
                            Err(SpecFail { kind: SyntaxErrorKind::ExpectedSemicolon, at: p1 })
                        },
                        Err(f) => Err(f),
                    }
                } else if p + 2 < t.len() && t[p + 2].kind == Token::Semicolon {
                    Ok(
                        (
                            SpecStmt::VarDeclaration { name: t[p + 1].text, initializer: None },
                            p + 3,
                        ),
                    )
                } else {
                    Err(SpecFail { kind: SyntaxErrorKind::ExpectedSemicolon, at: p + 2 })
                }
            } else {
                Err(SpecFail { kind: SyntaxErrorKind::ExpectedVarName, at: p + 1 })
            }
        } else {
            match sp_expression(t, p) {
                Ok((e, p1)) => if 0 <= p1 < t.len() && t[p1].kind == Token::Semicolon {
                    Ok((SpecStmt::Expression(e), p1 + 1))
                } else {
                    Err(SpecFail { kind: SyntaxErrorKind::ExpectedSemicolon, at: p1 })
                },
                Err(f) => Err(f),
            }
        }
    } else {
        arbitrary()
    }
}

/// `program := statement* EOF`: statements in source order until the
/// `Eof` token, failing as a whole on the first statement that fails.
#[verifier::opaque]
pub open spec fn sp_program(t: Seq<TokenSig>, p: int) -> Result<Seq<SpecStmt>, SpecFail>
    decreases toks_left(t, p),
{
    if 0 <= p < t.len() {
        if t[p].kind == Token::Eof {
            Ok(Seq::empty())
        } else {
            match sp_statement(t, p) {
                Ok((s, p1)) => if p < p1 <= t.len() {
                    match sp_program(t, p1) {
                        Ok(rest) => Ok(seq![s] + rest),
                        Err(f) => Err(f),
                    }
                } else {
                    arbitrary()
                },
                Err(f) => Err(f),
            }
        }
    } else {
        arbitrary()
    }
}

/// On a well-formed stream, `sp_primary` makes progress within bounds,
/// errors point at a real token, and a returned expression is an atom
/// obeying the precedence discipline.
#[verifier::rlimit(100)]
pub proof fn lemma_props_primary(t: Seq<TokenSig>, p: int)
    requires
        toks_wf(t),
        0 <= p < t.len(),
    ensures
        match sp_primary(t, p) {
            Ok(r) => p < r.1 < t.len() && well_leveled(r.0) && expr_level(r.0) >= 8,
            Err(f) => p <= f.at < t.len(),
        },
    decreases toks_left(t, p), 0int,
{
    reveal_with_fuel(sp_primary, 1);
    reveal_with_fuel(sp_expression, 1);
    reveal_with_fuel(sp_assignment, 1);
    if t[p].kind == Token::LeftParen {
        lemma_props_expression(t, p + 1);
    }
}

/// Progress, error bounds and precedence discipline for `sp_unary`.
pub proof fn lemma_props_unary(t: Seq<TokenSig>, p: int)
    requires
        toks_wf(t),
        0 <= p < t.len(),
    ensures
        match sp_unary(t, p) {
            Ok(r) => p < r.1 < t.len() && well_leveled(r.0) && expr_level(r.0) >= 7,
            Err(f) => p <= f.at < t.len(),
        },
    decreases toks_left(t, p), 1int,
{
    reveal_with_fuel(sp_unary, 1);
    reveal_with_fuel(sp_primary, 1);
    if t[p].kind == Token::Bang || t[p].kind == Token::Minus {
        lemma_props_unary(t, p + 1);
    } else {
        lemma_props_primary(t, p);
    }
}

/// Progress, error bounds and precedence discipline for
/// `sp_factor_more`, given a well-formed accumulated left operand.
pub proof fn lemma_props_factor_more(t: Seq<TokenSig>, p: int, acc: SpecExpr)
    requires
        toks_wf(t),
        0 <= p < t.len(),
        well_leveled(acc),
        expr_level(acc) >= 6,
    ensures
        match sp_factor_more(t, p, acc) {
            Ok(r) => p <= r.1 < t.len() && well_leveled(r.0) && expr_level(r.0) >= 6,
            Err(f) => p <= f.at < t.len(),
        },
    decreases toks_left(t, p), 2int,
{
    reveal_with_fuel(sp_factor_more, 1);
    reveal_with_fuel(sp_unary, 1);
    if op_at_factor(t[p].kind) is Some {
        lemma_props_unary(t, p + 1);
        match sp_unary(t, p + 1) {
            Ok(r) => {
                lemma_props_factor_more(t, r.1, binary(acc, op_at_factor(t[p].kind)->0, r.0));
            },
            Err(_) => {},
        }
    }
}

/// Progress, error bounds and precedence discipline for `sp_factor`.
pub proof fn lemma_props_factor(t: Seq<TokenSig>, p: int)
    requires
        toks_wf(t),
        0 <= p < t.len(),
    ensures
        match sp_factor(t, p) {
            Ok(r) => p < r.1 < t.len() && well_leveled(r.0) && expr_level(r.0) >= 6,
            Err(f) => p <= f.at < t.len(),
        },
    decreases toks_left(t, p), 3int,
{
    reveal_with_fuel(sp_factor, 1);
    reveal_with_fuel(sp_unary, 1);
    reveal_with_fuel(sp_factor_more, 1);
    lemma_props_unary(t, p);
    match sp_unary(t, p) {
        Ok(r) => {
            lemma_props_factor_more(t, r.1, r.0);
        },
        Err(_) => {},
    }
}

/// Progress, error bounds and precedence discipline for `sp_term_more`.
pub proof fn lemma_props_term_more(t: Seq<TokenSig>, p: int, acc: SpecExpr)
    requires
        toks_wf(t),
        0 <= p < t.len(),
        well_leveled(acc),
        expr_level(acc) >= 5,
    ensures
        match sp_term_more(t, p, acc) {
            Ok(r) => p <= r.1 < t.len() && well_leveled(r.0) && expr_level(r.0) >= 5,
            Err(f) => p <= f.at < t.len(),
        },
    decreases toks_left(t, p), 4int,
{
    reveal_with_fuel(sp_term_more, 1);
    reveal_with_fuel(sp_factor, 1);
    if op_at_term(t[p].kind) is Some {
        lemma_props_factor(t, p + 1);
        match sp_factor(t, p + 1) {
            Ok(r) => {
                lemma_props_term_more(t, r.1, binary(acc, op_at_term(t[p].kind)->0, r.0));
            },
            Err(_) => {},
        }
    }
}

/// Progress, error bounds and precedence discipline for `sp_term`.
pub proof fn lemma_props_term(t: Seq<TokenSig>, p: int)
    requires
        toks_wf(t),
        0 <= p < t.len(),
    ensures
        match sp_term(t, p) {
            Ok(r) => p < r.1 < t.len() && well_leveled(r.0) && expr_level(r.0) >= 5,
            Err(f) => p <= f.at < t.len(),
        },
    decreases toks_left(t, p), 5int,
{
    reveal_with_fuel(sp_term, 1);
    reveal_with_fuel(sp_factor, 1);
    reveal_with_fuel(sp_term_more, 1);
    lemma_props_factor(t, p);
    match sp_factor(t, p) {
        Ok(r) => {
            lemma_props_term_more(t, r.1, r.0);
        },
        Err(_) => {},
    }
}

/// Progress, error bounds and precedence discipline for
/// `sp_comparison_more`.
pub proof fn lemma_props_comparison_more(t: Seq<TokenSig>, p: int, acc: SpecExpr)
    requires
        toks_wf(t),
        0 <= p < t.len(),
        well_leveled(acc),
        expr_level(acc) >= 4,
    ensures
        match sp_comparison_more(t, p, acc) {
            Ok(r) => p <= r.1 < t.len() && well_leveled(r.0) && expr_level(r.0) >= 4,
            Err(f) => p <= f.at < t.len(),
        },
    decreases toks_left(t, p), 6int,
{
    reveal_with_fuel(sp_comparison_more, 1);
    reveal_with_fuel(sp_term, 1);
    if op_at_comparison(t[p].kind) is Some {
        lemma_props_term(t, p + 1);
        match sp_term(t, p + 1) {
            Ok(r) => {
                lemma_props_comparison_more(
                    t,
                    r.1,
                    binary(acc, op_at_comparison(t[p].kind)->0, r.0),
                );
            },
            Err(_) => {},
        }
    }
}

/// Progress, error bounds and precedence discipline for `sp_comparison`.
pub proof fn lemma_props_comparison(t: Seq<TokenSig>, p: int)
    requires
        toks_wf(t),
        0 <= p < t.len(),
    ensures
        match sp_comparison(t, p) {
            Ok(r) => p < r.1 < t.len() && well_leveled(r.0) && expr_level(r.0) >= 4,
            Err(f) => p <= f.at < t.len(),
        },
    decreases toks_left(t, p), 7int,
{
    reveal_with_fuel(sp_comparison, 1);
    reveal_with_fuel(sp_term, 1);
    reveal_with_fuel(sp_comparison_more, 1);
    lemma_props_term(t, p);
    match sp_term(t, p) {
        Ok(r) => {
            lemma_props_comparison_more(t, r.1, r.0);
        },
        Err(_) => {},
    }
}

/// Progress, error bounds and precedence discipline for
/// `sp_equality_more`.
pub proof fn lemma_props_equality_more(t: Seq<TokenSig>, p: int, acc: SpecExpr)
    requires
        toks_wf(t),
        0 <= p < t.len(),
        well_leveled(acc),
        expr_level(acc) >= 3,
    ensures
        match sp_equality_more(t, p, acc) {
            Ok(r) => p <= r.1 < t.len() && well_leveled(r.0) && expr_level(r.0) >= 3,
            Err(f) => p <= f.at < t.len(),
        },
    decreases toks_left(t, p), 8int,
{
    reveal_with_fuel(sp_equality_more, 1);
    reveal_with_fuel(sp_comparison, 1);
    if op_at_equality(t[p].kind) is Some {
        lemma_props_comparison(t, p + 1);
        match sp_comparison(t, p + 1) {
            Ok(r) => {
                lemma_props_equality_more(t, r.1, binary(acc, op_at_equality(t[p].kind)->0, r.0));
            },
            Err(_) => {},
        }
    }
}

/// Progress, error bounds and precedence discipline for `sp_equality`.
pub proof fn lemma_props_equality(t: Seq<TokenSig>, p: int)
    requires
        toks_wf(t),
        0 <= p < t.len(),
    ensures
        match sp_equality(t, p) {
            Ok(r) => p < r.1 < t.len() && well_leveled(r.0) && expr_level(r.0) >= 3,
            Err(f) => p <= f.at < t.len(),
        },
    decreases toks_left(t, p), 9int,
{
    reveal_with_fuel(sp_equality, 1);
    reveal_with_fuel(sp_comparison, 1);
    reveal_with_fuel(sp_equality_more, 1);
    lemma_props_comparison(t, p);
    match sp_comparison(t, p) {
        Ok(r) => {
            lemma_props_equality_more(t, r.1, r.0);
        },
        Err(_) => {},
    }
}

/// Progress, error bounds and precedence discipline for `sp_and_more`.
pub proof fn lemma_props_and_more(t: Seq<TokenSig>, p: int, acc: SpecExpr)
    requires
        toks_wf(t),
        0 <= p < t.len(),
        well_leveled(acc),
        expr_level(acc) >= 2,
    ensures
        match sp_and_more(t, p, acc) {
            Ok(r) => p <= r.1 < t.len() && well_leveled(r.0) && expr_level(r.0) >= 2,
            Err(f) => p <= f.at < t.len(),
        },
    decreases toks_left(t, p), 10int,
{
    reveal_with_fuel(sp_and_more, 1);
    reveal_with_fuel(sp_equality, 1);
    if op_at_and(t[p].kind) is Some {
        lemma_props_equality(t, p + 1);
        match sp_equality(t, p + 1) {
            Ok(r) => {
                lemma_props_and_more(t, r.1, binary(acc, BinaryOp::And, r.0));
            },
            Err(_) => {},
        }
    }
}

/// Progress, error bounds and precedence discipline for `sp_logic_and`.
pub proof fn lemma_props_logic_and(t: Seq<TokenSig>, p: int)
    requires
        toks_wf(t),
        0 <= p < t.len(),
    ensures
        match sp_logic_and(t, p) {
            Ok(r) => p < r.1 < t.len() && well_leveled(r.0) && expr_level(r.0) >= 2,
            Err(f) => p <= f.at < t.len(),
        },
    decreases toks_left(t, p), 11int,
{
    reveal_with_fuel(sp_logic_and, 1);
    reveal_with_fuel(sp_equality, 1);
    reveal_with_fuel(sp_and_more, 1);
    lemma_props_equality(t, p);
    match sp_equality(t, p) {
        Ok(r) => {
            lemma_props_and_more(t, r.1, r.0);
        },
        Err(_) => {},
    }
}

/// Progress, error bounds and precedence discipline for `sp_or_more`.
#[verifier::rlimit(60)]
pub proof fn lemma_props_or_more(t: Seq<TokenSig>, p: int, acc: SpecExpr)
    requires
        toks_wf(t),
        0 <= p < t.len(),
        well_leveled(acc),
        expr_level(acc) >= 1,
    ensures
        match sp_or_more(t, p, acc) {
            Ok(r) => p <= r.1 < t.len() && well_leveled(r.0) && expr_level(r.0) >= 1,
            Err(f) => p <= f.at < t.len(),
        },
    decreases toks_left(t, p), 12int,
{
    reveal_with_fuel(sp_or_more, 1);
    reveal_with_fuel(sp_logic_and, 1);
    if op_at_or(t[p].kind) is Some {
        lemma_props_logic_and(t, p + 1);
        match sp_logic_and(t, p + 1) {
            Ok(r) => {
                lemma_props_or_more(t, r.1, binary(acc, BinaryOp::Or, r.0));
            },
            Err(_) => {},
        }
    }
}

/// Progress, error bounds and precedence discipline for `sp_logic_or`.
pub proof fn lemma_props_logic_or(t: Seq<TokenSig>, p: int)
    requires
        toks_wf(t),
        0 <= p < t.len(),
    ensures
        match sp_logic_or(t, p) {
            Ok(r) => p < r.1 < t.len() && well_leveled(r.0) && expr_level(r.0) >= 1,
            Err(f) => p <= f.at < t.len(),
        },
    decreases toks_left(t, p), 13int,
{
    reveal_with_fuel(sp_logic_or, 1);
    reveal_with_fuel(sp_logic_and, 1);
    reveal_with_fuel(sp_or_more, 1);
    lemma_props_logic_and(t, p);
    match sp_logic_and(t, p) {
        Ok(r) => {
            lemma_props_or_more(t, r.1, r.0);
        },
        Err(_) => {},
    }
}

/// Progress, error bounds and precedence discipline for `sp_assignment`.
pub proof fn lemma_props_assignment(t: Seq<TokenSig>, p: int)
    requires
        toks_wf(t),
        0 <= p < t.len(),
    ensures
        match sp_assignment(t, p) {
            Ok(r) => p < r.1 < t.len() && well_leveled(r.0),
            Err(f) => p <= f.at < t.len(),
        },
    decreases toks_left(t, p), 14int,
{
    reveal_with_fuel(sp_assignment, 1);
    reveal_with_fuel(sp_logic_or, 1);
    if t[p].kind == Token::Identifier && p + 1 < t.len() && t[p + 1].kind == Token::Equal {
        lemma_props_assignment(t, p + 2);
    } else {
        lemma_props_logic_or(t, p);
    }
}

/// Progress, error bounds and precedence discipline for `sp_expression`.
pub proof fn lemma_props_expression(t: Seq<TokenSig>, p: int)
    requires
        toks_wf(t),
        0 <= p < t.len(),
    ensures
        match sp_expression(t, p) {
            Ok(r) => p < r.1 < t.len() && well_leveled(r.0),
            Err(f) => p <= f.at < t.len(),
        },
    decreases toks_left(t, p), 15int,
{
    reveal_with_fuel(sp_expression, 1);
    lemma_props_assignment(t, p);
}

/// Progress, error bounds and precedence discipline for `sp_statement`.
#[verifier::rlimit(100)]
pub proof fn lemma_props_statement(t: Seq<TokenSig>, p: int)
    requires
        toks_wf(t),
        0 <= p < t.len(),
    ensures
        match sp_statement(t, p) {
            Ok(r) => p < r.1 < t.len() && stmt_well_leveled(r.0),
            Err(f) => p <= f.at < t.len(),
        },
{
    reveal(sp_statement);
    if t[p].kind == Token::Print {
        lemma_props_expression(t, p + 1);
    } else if t[p].kind == Token::Var {
        if p + 1 < t.len() && t[p + 1].kind == Token::Identifier && p + 2 < t.len() && t[p
            + 2].kind == Token::Equal {
            lemma_props_expression(t, p + 3);
        }
    } else {
        lemma_props_expression(t, p);
    }
}

/// On a well-formed stream, `sp_program` yields statements that all obey
/// the precedence discipline, and its errors point at a real token.
pub proof fn lemma_props_program(t: Seq<TokenSig>, p: int)
    requires
        toks_wf(t),
        0 <= p < t.len(),
    ensures
        match sp_program(t, p) {
            Ok(ss) => forall|i: int| 0 <= i < ss.len() ==> stmt_well_leveled(#[trigger] ss[i]),
            Err(f) => p <= f.at < t.len(),
        },
    decreases toks_left(t, p),
{
    reveal_with_fuel(sp_program, 1);
    if t[p].kind != Token::Eof {
        lemma_props_statement(t, p);
        match sp_statement(t, p) {
            Ok(r) => {
                lemma_props_program(t, r.1);
                match sp_program(t, r.1) {
                    Ok(rest) => {
                        let ss = seq![r.0] + rest;
                        assert forall|i: int| 0 <= i < ss.len() implies stmt_well_leveled(
                            #[trigger] ss[i],
                        ) by {
                            if i > 0 {
                                assert(ss[i] == rest[i - 1]);
                            }
                        }
                    },
                    Err(_) => {},
                }
            },
            Err(_) => {},
        }
    }
}

/// The signatures of the lexer's output always form a well-formed token
/// stream.
pub proof fn lemma_lex_sigs_wf(src: Seq<char>)
    ensures
        toks_wf(sigs(spec_lex(src))),
        sigs(spec_lex(src)).len() == spec_lex(src).len(),
        forall|k: int|
            0 <= k < spec_lex(src).len() ==> (#[trigger] sigs(spec_lex(src))[k]).kind == spec_lex(
                src,
            )[k].kind && sigs(spec_lex(src))[k].text == spec_lex(src)[k].text,
{
    lemma_lex_wf(src);
}

/// What parsing a whole source text returns: the statement sequence, or
/// the first structural error with its index resolved to the offending
/// token's span. This is the function `parse_program` is proved equal to.
#[verifier::opaque]
pub open spec fn spec_parse(src: Seq<char>) -> Result<Seq<SpecStmt>, SpecError> {
    let ts = spec_lex(src);
    match sp_program(sigs(ts), 0) {
        Ok(prog) => Ok(prog),
        Err(f) => if 0 <= f.at < ts.len() {
            Err(SpecError { kind: f.kind, start: ts[f.at].start, end: ts[f.at].end })
        } else {
            arbitrary()
        },
    }
}

/// The parser's read-only cursor state: the source text, the lexer's
/// output vectors, and (in ghost state) the model of the lexed tokens
/// the vectors mirror.
pub struct Context<'a> {
    pub source: &'a str,
    pub tokens: &'a Vec<Token>,
    pub spans: &'a Vec<Span>,
    pub toks: Ghost<Seq<LexedToken>>,
}

impl<'a> Context<'a> {
    /// The token signatures the grammar reads.
    pub open spec fn sv(&self) -> Seq<TokenSig> {
        sigs(self.toks@)
    }

    /// A context is well formed when its token and span vectors mirror a
    /// well-formed token model index for index, with every proper
    /// token's span and text taken from the source.
    pub open spec fn wf(&self) -> bool {
        &&& toks_wf(self.sv())
        &&& self.tokens@.len() <= usize::MAX
        &&& self.tokens@.len() == self.toks@.len()
        &&& self.spans@.len() == self.toks@.len()
        &&& forall|k: int|
            0 <= k < self.toks@.len() ==> (#[trigger] self.tokens@[k]) == self.toks@[k].kind
        &&& forall|k: int|
            0 <= k < self.toks@.len() ==> (#[trigger] self.spans@[k]).start == self.toks@[k].start
                && self.spans@[k].end == self.toks@[k].end
        &&& forall|k: int|
            0 <= k < self.toks@.len() - 1 ==> token_wf(self.source@, 0, #[trigger] self.toks@[k])
    }

    /// The signature sequence mirrors the token model index for index.
    pub proof fn lemma_ctx(&self)
        ensures
            self.sv().len() == self.toks@.len(),
            forall|k: int|
                0 <= k < self.toks@.len() ==> (#[trigger] self.sv()[k]) == sig_of(self.toks@[k]),
    {
    }

    /// Whether an executable expression result equals a specification
    /// result: same tree and position on success, and on failure the
    /// same error kind with the offending token's span.
    pub open spec fn expr_matches(
        &self,
        r: Result<(Expr, usize), ParseError>,
        s: Result<(SpecExpr, int), SpecFail>,
    ) -> bool {
        match (r, s) {
            (Ok(v), Ok(sv)) => v.0@ == sv.0 && v.1 as int == sv.1,
            (Err(e), Err(f)) => 0 <= f.at < self.toks@.len() && e.kind == f.kind
                && e.span.start as int == self.toks@[f.at].start && e.span.end as int
                == self.toks@[f.at].end,
            _ => false,
        }
    }

    /// The statement-level analogue of `expr_matches`.
    pub open spec fn stmt_matches(
        &self,
        r: Result<(Stmt, usize), ParseError>,
        s: Result<(SpecStmt, int), SpecFail>,
    ) -> bool {
        match (r, s) {
            (Ok(v), Ok(sv)) => v.0@ == sv.0 && v.1 as int == sv.1,
            (Err(e), Err(f)) => 0 <= f.at < self.toks@.len() && e.kind == f.kind
                && e.span.start as int == self.toks@[f.at].start && e.span.end as int
                == self.toks@[f.at].end,
            _ => false,
        }
    }

    /// The text of the token at `pos`, recovered from its span.
    fn token_text(&self, pos: usize) -> (s: String)
        requires
            self.wf(),
            pos < self.tokens@.len(),
            self.sv()[pos as int].kind != Token::StringLit,
            self.sv()[pos as int].kind != Token::Eof,
        ensures
            s@ == self.sv()[pos as int].text,
    {
        proof {
            self.lemma_ctx();
        }
        let sp = self.spans[pos];
        let sub = self.source.substring_char(sp.start, sp.end);
        String::from_str(sub)
    }

    /// The contents of the string literal at `pos` (between the quotes).
    fn string_text(&self, pos: usize) -> (s: String)
        requires
            self.wf(),
            pos < self.tokens@.len(),
            self.sv()[pos as int].kind == Token::StringLit,
        ensures
            s@ == self.sv()[pos as int].text,
    {
        proof {
            self.lemma_ctx();
        }
        let sp = self.spans[pos];
        let sub = self.source.substring_char(sp.start + 1, sp.end - 1);
        String::from_str(sub)
    }

    /// Whether the token at `pos` is a multiplicative operator.
    fn factor_op(&self, pos: usize) -> (b: bool)
        requires
            self.wf(),
            pos < self.tokens@.len(),
        ensures
            b == (op_at_factor(self.sv()[pos as int].kind) is Some),
    {
        proof {
            self.lemma_ctx();
        }
        let k = self.tokens[pos];
        k == Token::Star || k == Token::Slash
    }

    /// Whether the token at `pos` is an additive operator.
    fn term_op(&self, pos: usize) -> (b: bool)
        requires
            self.wf(),
            pos < self.tokens@.len(),
        ensures
            b == (op_at_term(self.sv()[pos as int].kind) is Some),
    {
        proof {
            self.lemma_ctx();
        }
        let k = self.tokens[pos];
        k == Token::Plus || k == Token::Minus
    }

    /// Whether the token at `pos` is a comparison operator.
    fn comparison_op(&self, pos: usize) -> (b: bool)
        requires
            self.wf(),
            pos < self.tokens@.len(),
        ensures
            b == (op_at_comparison(self.sv()[pos as int].kind) is Some),
    {
        proof {
            self.lemma_ctx();
        }
        let k = self.tokens[pos];
        k == Token::Greater || k == Token::GreaterEqual || k == Token::Less || k
            == Token::LessEqual
    }

    /// Whether the token at `pos` is an equality operator.
    fn equality_op(&self, pos: usize) -> (b: bool)
        requires
            self.wf(),
            pos < self.tokens@.len(),
        ensures
            b == (op_at_equality(self.sv()[pos as int].kind) is Some),
    {
        proof {
            self.lemma_ctx();
        }
        let k = self.tokens[pos];
        k == Token::EqualEqual || k == Token::BangEqual
    }

    /// Whether the token at `pos` is `and`.
    fn and_op(&self, pos: usize) -> (b: bool)
        requires
            self.wf(),
            pos < self.tokens@.len(),
        ensures
            b == (op_at_and(self.sv()[pos as int].kind) is Some),
    {
        proof {
            self.lemma_ctx();
        }
        self.tokens[pos] == Token::And
    }

    /// Whether the token at `pos` is `or`.
    fn or_op(&self, pos: usize) -> (b: bool)
        requires
            self.wf(),
            pos < self.tokens@.len(),
        ensures
            b == (op_at_or(self.sv()[pos as int].kind) is Some),
    {
        proof {
            self.lemma_ctx();
        }
        self.tokens[pos] == Token::Or
    }

    /// `primary := NUMBER | STRING | "true" | "false" | "nil"
    /// | IDENTIFIER | "(" expression ")"`.
    pub fn primary(&self, pos: usize) -> (r: Result<(Expr, usize), ParseError>)
        requires
            self.wf(),
            pos < self.tokens@.len(),
        ensures
            self.expr_matches(r, sp_primary(self.sv(), pos as int)),
        decreases self.tokens@.len() - pos, 0int,
    {
        proof {
            self.lemma_ctx();
            reveal_with_fuel(sp_primary, 1);
            reveal_with_fuel(sp_assignment, 1);
        }
        let k = self.tokens[pos];
        if k == Token::Number {
            Ok((Expr::Literal(Value::Number(self.token_text(pos))), pos + 1))
        } else if k == Token::StringLit {
            Ok((Expr::Literal(Value::String(self.string_text(pos))), pos + 1))
        } else if k == Token::True {
            Ok((Expr::Literal(Value::Bool(true)), pos + 1))
        } else if k == Token::False {
            Ok((Expr::Literal(Value::Bool(false)), pos + 1))
        } else if k == Token::Nil {
            Ok((Expr::Literal(Value::Nil), pos + 1))
        } else if k == Token::Identifier {
            Ok((Expr::Variable(self.token_text(pos)), pos + 1))
        } else if k == Token::LeftParen {
            proof {
                lemma_props_assignment(self.sv(), pos as int + 1);
            }
            match self.assignment(pos + 1) {
                Ok((e, p2)) => {
                    if self.tokens[p2] == Token::RightParen {
                        Ok((Expr::Grouping(Box::new(e)), p2 + 1))
                    } else {
                        Err(
                            ParseError {
                                kind: SyntaxErrorKind::ExpectedRightParen,
                                span: self.spans[p2],
                            },
                        )
                    }
                },
                Err(e) => Err(e),
            }
        } else {
            Err(ParseError { kind: SyntaxErrorKind::ExpectedExpression, span: self.spans[pos] })
        }
    }

    /// `unary := ("!" | "-") unary | primary`.
    pub fn unary(&self, pos: usize) -> (r: Result<(Expr, usize), ParseError>)
        requires
            self.wf(),
            pos < self.tokens@.len(),
        ensures
            self.expr_matches(r, sp_unary(self.sv(), pos as int)),
        decreases self.tokens@.len() - pos, 1int,
    {
        proof {
            self.lemma_ctx();
            reveal_with_fuel(sp_unary, 1);
            reveal_with_fuel(sp_primary, 1);
        }
        let k = self.tokens[pos];
        if k == Token::Bang || k == Token::Minus {
            let op = if k == Token::Bang {
                UnaryOp::Not
            } else {
                UnaryOp::Minus
            };
            match self.unary(pos + 1) {
                Ok((e, p2)) => Ok((Expr::Unary { operator: op, operand: Box::new(e) }, p2)),
                Err(e) => Err(e),
            }
        } else {
            self.primary(pos)
        }
    }

    /// `factor := unary ( ("*" | "/") unary )*`, folded iteratively and
    /// left-associatively.
    pub fn factor(&self, pos: usize) -> (r: Result<(Expr, usize), ParseError>)
        requires
            self.wf(),
            pos < self.tokens@.len(),
        ensures
            self.expr_matches(r, sp_factor(self.sv(), pos as int)),
        decreases self.tokens@.len() - pos, 2int,
    {
        proof {
            self.lemma_ctx();
            reveal_with_fuel(sp_factor, 1);
            reveal_with_fuel(sp_factor_more, 1);
            reveal_with_fuel(sp_unary, 1);
            lemma_props_unary(self.sv(), pos as int);
        }
        let (first, p1) = match self.unary(pos) {
            Ok(v) => v,
            Err(e) => return Err(e),
        };
        let mut acc = first;
        let mut p = p1;
        while self.factor_op(p)
            invariant
                self.wf(),
                pos < p < self.tokens@.len(),
                well_leveled(acc@),
                expr_level(acc@) >= 6,
                sp_factor(self.sv(), pos as int) == sp_factor_more(self.sv(), p as int, acc@),
            decreases self.tokens@.len() - p,
        {
            proof {
                self.lemma_ctx();
                reveal_with_fuel(sp_factor_more, 1);
            reveal_with_fuel(sp_unary, 1);
                lemma_props_unary(self.sv(), p as int + 1);
            }
            let op = if self.tokens[p] == Token::Star {
                BinaryOp::Multiply
            } else {
                BinaryOp::Divide
            };
            let (rhs, p2) = match self.unary(p + 1) {
                Ok(v) => v,
                Err(e) => return Err(e),
            };
            let next = Expr::Binary { left: Box::new(acc), operator: op, right: Box::new(rhs) };
            acc = next;
            p = p2;
        }
        proof {
            reveal_with_fuel(sp_factor_more, 1);
            reveal_with_fuel(sp_unary, 1);
        }
        Ok((acc, p))
    }

    /// `term := factor ( ("+" | "-") factor )*`, folded iteratively and
    /// left-associatively.
    pub fn term(&self, pos: usize) -> (r: Result<(Expr, usize), ParseError>)
        requires
            self.wf(),
            pos < self.tokens@.len(),
        ensures
            self.expr_matches(r, sp_term(self.sv(), pos as int)),
        decreases self.tokens@.len() - pos, 3int,
    {
        proof {
            self.lemma_ctx();
            reveal_with_fuel(sp_term, 1);
            reveal_with_fuel(sp_term_more, 1);
            reveal_with_fuel(sp_factor, 1);
            lemma_props_factor(self.sv(), pos as int);
        }
        let (first, p1) = match self.factor(pos) {
            Ok(v) => v,
            Err(e) => return Err(e),
        };
        let mut acc = first;
        let mut p = p1;
        while self.term_op(p)
            invariant
                self.wf(),
                pos < p < self.tokens@.len(),
                well_leveled(acc@),
                expr_level(acc@) >= 5,
                sp_term(self.sv(), pos as int) == sp_term_more(self.sv(), p as int, acc@),
            decreases self.tokens@.len() - p,
        {
            proof {
                self.lemma_ctx();
                reveal_with_fuel(sp_term_more, 1);
            reveal_with_fuel(sp_factor, 1);
                lemma_props_factor(self.sv(), p as int + 1);
            }
            let op = if self.tokens[p] == Token::Plus {
                BinaryOp::Add
            } else {
                BinaryOp::Subtract
            };
            let (rhs, p2) = match self.factor(p + 1) {
                Ok(v) => v,
                Err(e) => return Err(e),
            };
            let next = Expr::Binary { left: Box::new(acc), operator: op, right: Box::new(rhs) };
            acc = next;
            p = p2;
        }
        proof {
            reveal_with_fuel(sp_term_more, 1);
            reveal_with_fuel(sp_factor, 1);
        }
        Ok((acc, p))
    }

    /// `comparison := term ( (">" | ">=" | "<" | "<=") term )*`, folded
    /// iteratively and left-associatively.
    pub fn comparison(&self, pos: usize) -> (r: Result<(Expr, usize), ParseError>)
        requires
            self.wf(),
            pos < self.tokens@.len(),
        ensures
            self.expr_matches(r, sp_comparison(self.sv(), pos as int)),
        decreases self.tokens@.len() - pos, 4int,
    {
        proof {
            self.lemma_ctx();
            reveal_with_fuel(sp_comparison, 1);
            reveal_with_fuel(sp_comparison_more, 1);
            reveal_with_fuel(sp_term, 1);
            lemma_props_term(self.sv(), pos as int);
        }
        let (first, p1) = match self.term(pos) {
            Ok(v) => v,
            Err(e) => return Err(e),
        };
        let mut acc = first;
        let mut p = p1;
        while self.comparison_op(p)
            invariant
                self.wf(),
                pos < p < self.tokens@.len(),
                well_leveled(acc@),
                expr_level(acc@) >= 4,
                sp_comparison(self.sv(), pos as int) == sp_comparison_more(
                    self.sv(),
                    p as int,
                    acc@,
                ),
            decreases self.tokens@.len() - p,
        {
            proof {
                self.lemma_ctx();
                reveal_with_fuel(sp_comparison_more, 1);
            reveal_with_fuel(sp_term, 1);
                lemma_props_term(self.sv(), p as int + 1);
            }
            let kt = self.tokens[p];
            let op = if kt == Token::Greater {
                BinaryOp::Greater
            } else if kt == Token::GreaterEqual {
                BinaryOp::GreaterEqual
            } else if kt == Token::Less {
                BinaryOp::Less
            } else {
                BinaryOp::LessEqual
            };
            let (rhs, p2) = match self.term(p + 1) {
                Ok(v) => v,
                Err(e) => return Err(e),
            };
            let next = Expr::Binary { left: Box::new(acc), operator: op, right: Box::new(rhs) };
            acc = next;
            p = p2;
        }
        proof {
            reveal_with_fuel(sp_comparison_more, 1);
            reveal_with_fuel(sp_term, 1);
        }
        Ok((acc, p))
    }

    /// `equality := comparison ( ("==" | "!=") comparison )*`, folded
    /// iteratively and left-associatively.
    pub fn equality(&self, pos: usize) -> (r: Result<(Expr, usize), ParseError>)
        requires
            self.wf(),
            pos < self.tokens@.len(),
        ensures
            self.expr_matches(r, sp_equality(self.sv(), pos as int)),
        decreases self.tokens@.len() - pos, 5int,
    {
        proof {
            self.lemma_ctx();
            reveal_with_fuel(sp_equality, 1);
            reveal_with_fuel(sp_equality_more, 1);
            reveal_with_fuel(sp_comparison, 1);
            lemma_props_comparison(self.sv(), pos as int);
        }
        let (first, p1) = match self.comparison(pos) {
            Ok(v) => v,
            Err(e) => return Err(e),
        };
        let mut acc = first;
        let mut p = p1;
        while self.equality_op(p)
            invariant
                self.wf(),
                pos < p < self.tokens@.len(),
                well_leveled(acc@),
                expr_level(acc@) >= 3,
                sp_equality(self.sv(), pos as int) == sp_equality_more(self.sv(), p as int, acc@),
            decreases self.tokens@.len() - p,
        {
            proof {
                self.lemma_ctx();
                reveal_with_fuel(sp_equality_more, 1);
            reveal_with_fuel(sp_comparison, 1);
                lemma_props_comparison(self.sv(), p as int + 1);
            }
            let op = if self.tokens[p] == Token::EqualEqual {
                BinaryOp::Equal
            } else {
                BinaryOp::NotEqual
            };
            let (rhs, p2) = match self.comparison(p + 1) {
                Ok(v) => v,
                Err(e) => return Err(e),
            };
            let next = Expr::Binary { left: Box::new(acc), operator: op, right: Box::new(rhs) };
            acc = next;
            p = p2;
        }
        proof {
            reveal_with_fuel(sp_equality_more, 1);
            reveal_with_fuel(sp_comparison, 1);
        }
        Ok((acc, p))
    }

    /// `logic_and := equality ( "and" equality )*`, folded iteratively
    /// and left-associatively.
    pub fn logic_and(&self, pos: usize) -> (r: Result<(Expr, usize), ParseError>)
        requires
            self.wf(),
            pos < self.tokens@.len(),
        ensures
            self.expr_matches(r, sp_logic_and(self.sv(), pos as int)),
        decreases self.tokens@.len() - pos, 6int,
    {
        proof {
            self.lemma_ctx();
            reveal_with_fuel(sp_logic_and, 1);
            reveal_with_fuel(sp_and_more, 1);
            reveal_with_fuel(sp_equality, 1);
            lemma_props_equality(self.sv(), pos as int);
        }
        let (first, p1) = match self.equality(pos) {
            Ok(v) => v,
            Err(e) => return Err(e),
        };
        let mut acc = first;
        let mut p = p1;
        while self.and_op(p)
            invariant
                self.wf(),
                pos < p < self.tokens@.len(),
                well_leveled(acc@),
                expr_level(acc@) >= 2,
                sp_logic_and(self.sv(), pos as int) == sp_and_more(self.sv(), p as int, acc@),
            decreases self.tokens@.len() - p,
        {
            proof {
                self.lemma_ctx();
                reveal_with_fuel(sp_and_more, 1);
            reveal_with_fuel(sp_equality, 1);
                lemma_props_equality(self.sv(), p as int + 1);
            }
            let (rhs, p2) = match self.equality(p + 1) {
                Ok(v) => v,
                Err(e) => return Err(e),
            };
            let next = Expr::Binary {
                left: Box::new(acc),
                operator: BinaryOp::And,
                right: Box::new(rhs),
            };
            acc = next;
            p = p2;
        }
        proof {
            reveal_with_fuel(sp_and_more, 1);
            reveal_with_fuel(sp_equality, 1);
        }
        Ok((acc, p))
    }

    /// `logic_or := logic_and ( "or" logic_and )*`, folded iteratively
    /// and left-associatively.
    pub fn logic_or(&self, pos: usize) -> (r: Result<(Expr, usize), ParseError>)
        requires
            self.wf(),
            pos < self.tokens@.len(),
        ensures
            self.expr_matches(r, sp_logic_or(self.sv(), pos as int)),
        decreases self.tokens@.len() - pos, 7int,
    {
        proof {
            self.lemma_ctx();
            reveal_with_fuel(sp_logic_or, 1);
            reveal_with_fuel(sp_or_more, 1);
            reveal_with_fuel(sp_logic_and, 1);
            lemma_props_logic_and(self.sv(), pos as int);
        }
        let (first, p1) = match self.logic_and(pos) {
            Ok(v) => v,
            Err(e) => return Err(e),
        };
        let mut acc = first;
        let mut p = p1;
        while self.or_op(p)
            invariant
                self.wf(),
                pos < p < self.tokens@.len(),
                well_leveled(acc@),
                expr_level(acc@) >= 1,
                sp_logic_or(self.sv(), pos as int) == sp_or_more(self.sv(), p as int, acc@),
            decreases self.tokens@.len() - p,
        {
            proof {
                self.lemma_ctx();
                reveal_with_fuel(sp_or_more, 1);
            reveal_with_fuel(sp_logic_and, 1);
                lemma_props_logic_and(self.sv(), p as int + 1);
            }
            let (rhs, p2) = match self.logic_and(p + 1) {
                Ok(v) => v,
                Err(e) => return Err(e),
            };
            let next = Expr::Binary {
                left: Box::new(acc),
                operator: BinaryOp::Or,
                right: Box::new(rhs),
            };
            acc = next;
            p = p2;
        }
        proof {
            reveal_with_fuel(sp_or_more, 1);
            reveal_with_fuel(sp_logic_and, 1);
        }
        Ok((acc, p))
    }

    /// `assignment := IDENTIFIER "=" assignment | logic_or`, committed
    /// to by a two-token peek.
    pub fn assignment(&self, pos: usize) -> (r: Result<(Expr, usize), ParseError>)
        requires
            self.wf(),
            pos < self.tokens@.len(),
        ensures
            self.expr_matches(r, sp_assignment(self.sv(), pos as int)),
        decreases self.tokens@.len() - pos, 8int,
    {
        proof {
            self.lemma_ctx();
            reveal_with_fuel(sp_assignment, 1);
            reveal_with_fuel(sp_logic_or, 1);
        }
        let n = self.tokens.len();
        if self.tokens[pos] == Token::Identifier && pos + 1 < n && self.tokens[pos + 1]
            == Token::Equal {
            let name = self.token_text(pos);
            match self.assignment(pos + 2) {
                Ok((v, p2)) => Ok((Expr::Assignment { name, value: Box::new(v) }, p2)),
                Err(e) => Err(e),
            }
        } else {
            self.logic_or(pos)
        }
    }

    /// `expression := assignment`.
    pub fn expression(&self, pos: usize) -> (r: Result<(Expr, usize), ParseError>)
        requires
            self.wf(),
            pos < self.tokens@.len(),
        ensures
            self.expr_matches(r, sp_expression(self.sv(), pos as int)),
        decreases self.tokens@.len() - pos, 9int,
    {
        proof {
            reveal(sp_expression);
        }
        self.assignment(pos)
    }

    /// One statement: `print expression ;`, `var IDENTIFIER ( =
    /// expression )? ;`, or `expression ;`.
    pub fn statement(&self, pos: usize) -> (r: Result<(Stmt, usize), ParseError>)
        requires
            self.wf(),
            pos < self.tokens@.len(),
        ensures
            self.stmt_matches(r, sp_statement(self.sv(), pos as int)),
        decreases self.tokens@.len() - pos, 10int,
    {
        proof {
            self.lemma_ctx();
            reveal(sp_statement);
        }
        let n = self.tokens.len();
        let k = self.tokens[pos];
        if k == Token::Print {
            proof {
                lemma_props_expression(self.sv(), pos as int + 1);
            }
            match self.expression(pos + 1) {
                Ok((e, p1)) => {
                    if self.tokens[p1] == Token::Semicolon {
                        Ok((Stmt::Print(e), p1 + 1))
                    } else {
                        Err(
                            ParseError {
                                kind: SyntaxErrorKind::ExpectedSemicolon,
                                span: self.spans[p1],
                            },
                        )
                    }
                },
                Err(e) => Err(e),
            }
        } else if k == Token::Var {
            if pos + 1 < n && self.tokens[pos + 1] == Token::Identifier {
                let name = self.token_text(pos + 1);
                if pos + 2 < n && self.tokens[pos + 2] == Token::Equal {
                    proof {
                        lemma_props_expression(self.sv(), pos as int + 3);
                    }
                    match self.expression(pos + 3) {
                        Ok((e, p1)) => {
                            if self.tokens[p1] == Token::Semicolon {
                                Ok((Stmt::VarDeclaration { name, initializer: Some(e) }, p1 + 1))
                            } else {
                                Err(
                                    ParseError {
                                        kind: SyntaxErrorKind::ExpectedSemicolon,
                                        span: self.spans[p1],
                                    },
                                )
                            }
                        },
                        Err(e) => Err(e),
                    }
                } else if pos + 2 < n && self.tokens[pos + 2] == Token::Semicolon {
                    Ok((Stmt::VarDeclaration { name, initializer: None }, pos + 3))
                } else {
                    Err(
                        ParseError {
                            kind: SyntaxErrorKind::ExpectedSemicolon,
                            span: self.spans[pos + 2],
                        },
                    )
                }
            } else {
                Err(
                    ParseError {
                        kind: SyntaxErrorKind::ExpectedVarName,
                        span: self.spans[pos + 1],
                    },
                )
            }
        } else {
            proof {
                lemma_props_expression(self.sv(), pos as int);
            }
            match self.expression(pos) {
                Ok((e, p1)) => {
                    if self.tokens[p1] == Token::Semicolon {
                        Ok((Stmt::Expression(e), p1 + 1))
                    } else {
                        Err(
                            ParseError {
                                kind: SyntaxErrorKind::ExpectedSemicolon,
                                span: self.spans[p1],
                            },
                        )
                    }
                },
                Err(e) => Err(e),
            }
        }
    }

    /// `program := statement* EOF`: every statement in order, stopping
    /// at the `Eof` token, failing as a whole on the first error.
    pub fn program(&self, pos: usize) -> (r: Result<Vec<Stmt>, ParseError>)
        requires
            self.wf(),
            pos < self.tokens@.len(),
        ensures
            match (r, sp_program(self.sv(), pos as int)) {
                (Ok(v), Ok(ss)) => v@.map_values(|s: Stmt| s@) == ss,
                (Err(e), Err(f)) => 0 <= f.at < self.toks@.len() && e.kind == f.kind
                    && e.span.start as int == self.toks@[f.at].start && e.span.end as int
                    == self.toks@[f.at].end,
                _ => false,
            },
    {
        proof {
            self.lemma_ctx();
            reveal_with_fuel(sp_program, 1);
        }
        let mut stmts: Vec<Stmt> = Vec::new();
        let mut p = pos;
        proof {
            assert(stmts@.map_values(|s: Stmt| s@) =~= Seq::<SpecStmt>::empty());
        }
        while self.tokens[p] != Token::Eof
            invariant
                self.wf(),
                pos <= p < self.tokens@.len(),
                ({
                    let done = stmts@.map_values(|s: Stmt| s@);
                    match sp_program(self.sv(), p as int) {
                        Ok(rest) => sp_program(self.sv(), pos as int) == Ok::<
                            Seq<SpecStmt>,
                            SpecFail,
                        >(done + rest),
                        Err(f) => sp_program(self.sv(), pos as int) == Err::<
                            Seq<SpecStmt>,
                            SpecFail,
                        >(f),
                    }
                }),
            decreases self.tokens@.len() - p,
        {
            proof {
                self.lemma_ctx();
                reveal_with_fuel(sp_program, 1);
                lemma_props_statement(self.sv(), p as int);
            }
            let ghost done_before = stmts@.map_values(|s: Stmt| s@);
            let (s, p1) = match self.statement(p) {
                Ok(v) => v,
                Err(e) => return Err(e),
            };
            stmts.push(s);
            proof {
                assert(stmts@.map_values(|s: Stmt| s@) =~= done_before + seq![s@]);
                match sp_program(self.sv(), p1 as int) {
                    Ok(rest) => {
                        assert((done_before + seq![s@]) + rest =~= done_before + (seq![s@]
                            + rest));
                    },
                    Err(_) => {},
                }
            }
            p = p1;
        }
        proof {
            reveal_with_fuel(sp_program, 1);
            assert(stmts@.map_values(|s: Stmt| s@) + Seq::<SpecStmt>::empty() =~= stmts@.map_values(
                |s: Stmt| s@,
            ));
        }
        Ok(stmts)
    }
}

/// A freshly lexed context is well formed: `tokenize`'s guarantees are
/// exactly what `Context::wf` asks, token by token.
#[verifier::rlimit(100)]
proof fn lemma_context_wf<'a>(c: Context<'a>)
    requires
        tokens_match(c.source@, c.tokens@, c.spans@),
        c.toks@ == spec_lex(c.source@),
        c.tokens@.len() <= usize::MAX,
    ensures
        c.wf(),
{
    lemma_lex_wf(c.source@);
    lemma_lex_sigs_wf(c.source@);
}

/// Parse a complete program from source text.
///
/// On success the returned [`Program`] holds, in textual order, exactly
/// the statements that `spec_parse` assigns to this source — the grammar
/// at the head of this module with its precedence and associativity
/// rules. On failure the returned error is the first structural error:
/// its kind says what was required, its span points at the offending
/// token (at the zero-width end-of-input span when the input ended
/// early). Empty or whitespace-only input succeeds with zero statements;
/// lexical errors surface as syntax errors when the parser reaches the
/// offending token.
#[verifier::rlimit(100)]
pub fn parse_program(source: &str) -> (r: Result<Program, ParseError>)
    ensures
        match (r, spec_parse(source@)) {
            (Ok(p), Ok(ss)) => p@ == ss,
            (Err(e), Err(f)) => e@ == f,
            _ => false,
        },
{
    let ghost src = source@;
    let mut diags: Vec<Diagnostic> = Vec::new();
    let (tokens, spans) = tokenize(source, &mut diags);
    let ctx = Context { source, tokens: &tokens, spans: &spans, toks: Ghost(spec_lex(src)) };
    proof {
        assert(tokens@.len() <= usize::MAX) by {
            assert(tokens.len() == tokens@.len());
        }
        lemma_context_wf(ctx);
        lemma_props_program(ctx.sv(), 0);
        reveal(spec_parse);
    }
    match ctx.program(0) {
        Ok(stmts) => Ok(Program { statements: stmts }),
        Err(e) => Err(e),
    }
}

} // verus!
