//! Tokens, source spans, and the structured error types shared by the
//! lexer and the parser.

use vstd::prelude::*;

verus! {

/// A classified unit of lexical input. `Number`, `StringLit` and
/// `Identifier` carry no payload here; their text is recovered from the
/// source through the accompanying [`Span`].
#[derive(Clone, Copy, Debug, PartialEq, Eq, Structural)]
pub enum Token {
    True,
    False,
    Nil,
    Print,
    Var,
    And,
    Or,
    Plus,
    Minus,
    Star,
    Slash,
    Bang,
    BangEqual,
    Equal,
    EqualEqual,
    Greater,
    GreaterEqual,
    Less,
    LessEqual,
    LeftParen,
    RightParen,
    Semicolon,
    Number,
    StringLit,
    Identifier,
    Error,
    Eof,
}

/// A half-open range `[start, end)` of positions in the source text's
/// character sequence, identifying where a token or error occurred.
#[derive(Clone, Copy, Debug, PartialEq, Eq, Structural)]
pub struct Span {
    pub start: usize,
    pub end: usize,
}

/// The ways a character sequence can fail to form a token. Lexing never
/// stops on such an error: an `Error` token is emitted and scanning
/// continues.
#[derive(Clone, Copy, Debug, PartialEq, Eq, Structural)]
pub enum LexerError {
    /// A character that starts no token.
    Invalid,
    /// A string literal still open at end of input.
    UnterminatedString,
}

/// A recorded lexical error together with the span it occurred at.
#[derive(Clone, Copy, Debug, PartialEq, Eq, Structural)]
pub struct Diagnostic {
    pub error: LexerError,
    pub span: Span,
}

impl LexerError {
    /// Attach a source span to this error.
    pub fn into_diagnostic(self, span: Span) -> (d: Diagnostic)
        ensures
            d == (Diagnostic { error: self, span }),
    {
        Diagnostic { error: self, span }
    }
}

impl Diagnostic {
    /// A human-readable description of the error.
    pub fn message(&self) -> (r: String)
        ensures
            r@ == lexer_error_text(self.error),
    {
        match self.error {
            LexerError::Invalid => String::from_str("invalid token"),
            LexerError::UnterminatedString => String::from_str("unterminated string literal"),
        }
    }
}

/// The message text of each lexical error.
pub open spec fn lexer_error_text(e: LexerError) -> Seq<char> {
    match e {
        LexerError::Invalid => "invalid token"@,
        LexerError::UnterminatedString => "unterminated string literal"@,
    }
}

/// What the parser required at the position where it failed.
#[derive(Clone, Copy, Debug, PartialEq, Eq, Structural)]
pub enum SyntaxErrorKind {
    /// A literal, an identifier, a unary operator or `(` was required.
    ExpectedExpression,
    /// The `;` terminating a statement was required.
    ExpectedSemicolon,
    /// An identifier was required after `var`.
    ExpectedVarName,
    /// The `)` closing a grouping was required.
    ExpectedRightParen,
}

/// A structural parse error: the first position where the token stream
/// failed to match the grammar, with what was required there. The span is
/// the offending token's (for end of input, the zero-width span at the end
/// of the source).
#[derive(Clone, Copy, Debug, PartialEq, Eq, Structural)]
pub struct ParseError {
    pub kind: SyntaxErrorKind,
    pub span: Span,
}

impl ParseError {
    /// A human-readable description of the error.
    pub fn message(&self) -> (r: String)
        ensures
            r@ == syntax_error_text(self.kind),
    {
        match self.kind {
            SyntaxErrorKind::ExpectedExpression => String::from_str("expected expression"),
            SyntaxErrorKind::ExpectedSemicolon => String::from_str("expected ';' after statement"),
            SyntaxErrorKind::ExpectedVarName => String::from_str("expected variable name"),
            SyntaxErrorKind::ExpectedRightParen => String::from_str("expected ')' after expression"),
        }
    }
}

/// The message text of each syntax error.
pub open spec fn syntax_error_text(k: SyntaxErrorKind) -> Seq<char> {
    match k {
        SyntaxErrorKind::ExpectedExpression => "expected expression"@,
        SyntaxErrorKind::ExpectedSemicolon => "expected ';' after statement"@,
        SyntaxErrorKind::ExpectedVarName => "expected variable name"@,
        SyntaxErrorKind::ExpectedRightParen => "expected ')' after expression"@,
    }
}

/// The model of a [`Diagnostic`]: the same error over unbounded span
/// positions.
pub struct SpecDiag {
    pub error: LexerError,
    pub start: int,
    pub end: int,
}

impl View for Diagnostic {
    type V = SpecDiag;

    open spec fn view(&self) -> SpecDiag {
        SpecDiag { error: self.error, start: self.span.start as int, end: self.span.end as int }
    }
}

/// The model of a [`ParseError`].
pub struct SpecError {
    pub kind: SyntaxErrorKind,
    pub start: int,
    pub end: int,
}

impl View for ParseError {
    type V = SpecError;

    open spec fn view(&self) -> SpecError {
        SpecError { kind: self.kind, start: self.span.start as int, end: self.span.end as int }
    }
}

/// The mathematical model of one lexed token: its kind, its span in the
/// source's character sequence, and its text (for a string literal, the
/// contents between the quotes; otherwise the spanned characters).
pub struct LexedToken {
    pub kind: Token,
    pub start: int,
    pub end: int,
    pub text: Seq<char>,
}

/// The part of a token the parser's grammar can observe: its kind and its
/// text. Spans are deliberately absent, so the parse tree provably does
/// not depend on token positions.
pub struct TokenSig {
    pub kind: Token,
    pub text: Seq<char>,
}

/// The signature of one lexed token.
pub open spec fn sig_of(t: LexedToken) -> TokenSig {
    TokenSig { kind: t.kind, text: t.text }
}

/// The signatures of a lexed token sequence.
pub open spec fn sigs(ts: Seq<LexedToken>) -> Seq<TokenSig> {
    ts.map_values(|t: LexedToken| sig_of(t))
}

} // verus!
