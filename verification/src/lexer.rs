//! The lexer: one left-to-right pass over the source's character
//! sequence, producing a token/span sequence plus a (possibly empty) list
//! of lexical diagnostics. Lexing is total and fault-tolerant: an
//! unrecognized character or an unterminated string becomes an `Error`
//! token and scanning continues, so the parser can still report a precise
//! location.
//!
//! `spec_lex` is the mathematical definition of this pass; `tokenize` is
//! the executable lexer, proved to return exactly `spec_lex`'s tokens.

use vstd::prelude::*;

use crate::token::{sig_of, sigs, Diagnostic, LexedToken, LexerError, Span, SpecDiag, Token};

verus! {

/// Whitespace skipped between tokens.
pub open spec fn is_ws_char(c: char) -> bool {
    c == ' ' || c == '\t' || c == '\r' || c == '\n'
}

/// An ASCII decimal digit.
pub open spec fn is_digit_char(c: char) -> bool {
    48 <= c as u32 && c as u32 <= 57
}

/// A character that may start an identifier or keyword.
pub open spec fn is_alpha_char(c: char) -> bool {
    (97 <= c as u32 && c as u32 <= 122) || (65 <= c as u32 && c as u32 <= 90) || c == '_'
}

/// A character that may continue an identifier or keyword.
pub open spec fn is_alnum_char(c: char) -> bool {
    is_alpha_char(c) || is_digit_char(c)
}

/// How many characters remain at position `i` (zero once past the end);
/// the termination measure of every scanning function.
pub open spec fn chars_left(src: Seq<char>, i: int) -> int {
    if i <= src.len() {
        src.len() - i
    } else {
        0
    }
}

/// The position of the next token start at or after `i`: skips runs of
/// whitespace and `//` line comments.
pub open spec fn skip_trivia(src: Seq<char>, i: int) -> int
    decreases chars_left(src, i), 1int,
{
    if 0 <= i < src.len() {
        if is_ws_char(src[i]) {
            skip_trivia(src, i + 1)
        } else if src[i] == '/' && i + 1 < src.len() && src[i + 1] == '/' {
            skip_comment(src, i + 2)
        } else {
            i
        }
    } else {
        i
    }
}

/// Inside a `//` comment: skip to just past the terminating newline (an
/// unterminated trailing comment is consumed to end of input).
pub open spec fn skip_comment(src: Seq<char>, i: int) -> int
    decreases chars_left(src, i), 0int,
{
    if 0 <= i < src.len() {
        if src[i] == '\n' {
            skip_trivia(src, i + 1)
        } else {
            skip_comment(src, i + 1)
        }
    } else {
        i
    }
}

/// The end of the maximal run of digits starting at `i`.
pub open spec fn scan_digits(src: Seq<char>, i: int) -> int
    decreases chars_left(src, i),
{
    if 0 <= i < src.len() && is_digit_char(src[i]) {
        scan_digits(src, i + 1)
    } else {
        i
    }
}

/// The end of the maximal run of identifier characters starting at `i`.
pub open spec fn scan_ident(src: Seq<char>, i: int) -> int
    decreases chars_left(src, i),
{
    if 0 <= i < src.len() && is_alnum_char(src[i]) {
        scan_ident(src, i + 1)
    } else {
        i
    }
}

/// Scanning a string literal's body from `i` (just past the opening
/// quote): the position just past the next unescaped closing quote, or
/// `None` if the input ends first.
pub open spec fn scan_string(src: Seq<char>, i: int) -> Option<int>
    decreases chars_left(src, i),
{
    if 0 <= i < src.len() {
        if src[i] == '"' {
            Some(i + 1)
        } else if src[i] == '\\' && i + 1 < src.len() {
            scan_string(src, i + 2)
        } else if src[i] == '\\' {
            None
        } else {
            scan_string(src, i + 1)
        }
    } else {
        None
    }
}

/// Keyword classification of an identifier-shaped run of characters:
/// the fixed, case-sensitive keyword table, else `Identifier`.
pub open spec fn keyword_of(text: Seq<char>) -> Token {
    if text == seq!['t', 'r', 'u', 'e'] {
        Token::True
    } else if text == seq!['f', 'a', 'l', 's', 'e'] {
        Token::False
    } else if text == seq!['n', 'i', 'l'] {
        Token::Nil
    } else if text == seq!['p', 'r', 'i', 'n', 't'] {
        Token::Print
    } else if text == seq!['v', 'a', 'r'] {
        Token::Var
    } else if text == seq!['a', 'n', 'd'] {
        Token::And
    } else if text == seq!['o', 'r'] {
        Token::Or
    } else {
        Token::Identifier
    }
}

/// The end-of-input token: a zero-width span at position `n`.
pub open spec fn eof_token(n: int) -> LexedToken {
    LexedToken { kind: Token::Eof, start: n, end: n, text: Seq::empty() }
}

/// A token with its text taken directly from its span.
pub open spec fn plain_token(src: Seq<char>, kind: Token, start: int, end: int) -> LexedToken {
    LexedToken { kind, start, end, text: src.subrange(start, end) }
}

/// Whether the two-character operator form applies at `j` (`!=`, `==`,
/// `>=`, `<=`).
pub open spec fn has_equal_next(src: Seq<char>, j: int) -> bool {
    j + 1 < src.len() && src[j + 1] == '='
}

/// The single token starting at position `j`, which must hold a
/// non-trivia character. Two-character operators are preferred over their
/// one-character prefixes; digits, identifier characters and quotes open
/// their maximal scans; any other unrecognized character becomes a
/// one-character `Error` token. An unterminated string becomes an `Error`
/// token spanning from its opening quote to end of input.
#[verifier::opaque]
pub open spec fn token_at(src: Seq<char>, j: int) -> LexedToken {
    let c = src[j];
    if c == '(' {
        plain_token(src, Token::LeftParen, j, j + 1)
    } else if c == ')' {
        plain_token(src, Token::RightParen, j, j + 1)
    } else if c == ';' {
        plain_token(src, Token::Semicolon, j, j + 1)
    } else if c == '+' {
        plain_token(src, Token::Plus, j, j + 1)
    } else if c == '-' {
        plain_token(src, Token::Minus, j, j + 1)
    } else if c == '*' {
        plain_token(src, Token::Star, j, j + 1)
    } else if c == '/' {
        plain_token(src, Token::Slash, j, j + 1)
    } else if c == '!' {
        if has_equal_next(src, j) {
            plain_token(src, Token::BangEqual, j, j + 2)
        } else {
            plain_token(src, Token::Bang, j, j + 1)
        }
    } else if c == '=' {
        if has_equal_next(src, j) {
            plain_token(src, Token::EqualEqual, j, j + 2)
        } else {
            plain_token(src, Token::Equal, j, j + 1)
        }
    } else if c == '>' {
        if has_equal_next(src, j) {
            plain_token(src, Token::GreaterEqual, j, j + 2)
        } else {
            plain_token(src, Token::Greater, j, j + 1)
        }
    } else if c == '<' {
        if has_equal_next(src, j) {
            plain_token(src, Token::LessEqual, j, j + 2)
        } else {
            plain_token(src, Token::Less, j, j + 1)
        }
    } else if c == '"' {
        match scan_string(src, j + 1) {
            Some(e) => LexedToken {
                kind: Token::StringLit,
                start: j,
                end: e,
                text: src.subrange(j + 1, e - 1),
            },
            None => plain_token(src, Token::Error, j, src.len() as int),
        }
    } else if is_digit_char(c) {
        let d = scan_digits(src, j + 1);
        if d < src.len() && src[d] == '.' && d + 1 < src.len() && is_digit_char(src[d + 1]) {
            plain_token(src, Token::Number, j, scan_digits(src, d + 2))
        } else {
            plain_token(src, Token::Number, j, d)
        }
    } else if is_alpha_char(c) {
        let e = scan_ident(src, j + 1);
        LexedToken {
            kind: keyword_of(src.subrange(j, e)),
            start: j,
            end: e,
            text: src.subrange(j, e),
        }
    } else {
        plain_token(src, Token::Error, j, j + 1)
    }
}

/// The token sequence from position `i` on: skip trivia, scan one token,
/// continue after it; a trailing `Eof` token closes the sequence. (The
/// impossible-progress branches are never taken; `lemma_lex_from_wf`
/// discharges them.)
#[verifier::opaque]
pub open spec fn spec_lex_from(src: Seq<char>, i: int) -> Seq<LexedToken>
    decreases chars_left(src, i),
{
    let j = skip_trivia(src, i);
    if !(i <= j <= src.len()) {
        arbitrary()
    } else if j == src.len() {
        seq![eof_token(src.len() as int)]
    } else {
        let t = token_at(src, j);
        if j < t.end <= src.len() {
            seq![t] + spec_lex_from(src, t.end)
        } else {
            arbitrary()
        }
    }
}

/// The token sequence of a whole source text: what `tokenize` returns.
pub open spec fn spec_lex(src: Seq<char>) -> Seq<LexedToken> {
    spec_lex_from(src, 0)
}

/// The lexical error recorded for an `Error` token: a stray character, or
/// a string literal still open at end of input.
pub open spec fn diag_of_token(src: Seq<char>, t: LexedToken) -> SpecDiag {
    SpecDiag {
        error: if 0 <= t.start < src.len() && src[t.start] == '"' {
            LexerError::UnterminatedString
        } else {
            LexerError::Invalid
        },
        start: t.start,
        end: t.end,
    }
}

/// Trivia skipping never moves backwards nor past the end.
pub proof fn lemma_skip_trivia_bounds(src: Seq<char>, i: int)
    requires
        0 <= i <= src.len(),
    ensures
        i <= skip_trivia(src, i) <= src.len(),
        i <= skip_comment(src, i) <= src.len(),
    decreases chars_left(src, i),
{
    if i < src.len() {
        lemma_skip_trivia_bounds(src, i + 1);
        if i + 2 <= src.len() {
            lemma_skip_trivia_bounds(src, i + 2);
        }
    }
}

/// Digit and identifier scans never move backwards nor past the end.
pub proof fn lemma_scan_bounds(src: Seq<char>, i: int)
    requires
        0 <= i <= src.len(),
    ensures
        i <= scan_digits(src, i) <= src.len(),
        i <= scan_ident(src, i) <= src.len(),
    decreases chars_left(src, i),
{
    if i < src.len() {
        lemma_scan_bounds(src, i + 1);
    }
}

/// A successful string scan ends past its start, within the input, and
/// on a closing quote.
pub proof fn lemma_scan_string_bounds(src: Seq<char>, i: int)
    requires
        0 <= i <= src.len(),
        scan_string(src, i) is Some,
    ensures
        i < scan_string(src, i)->0 <= src.len(),
        src[scan_string(src, i)->0 - 1] == '"',
    decreases chars_left(src, i),
{
    if i < src.len() && src[i] != '"' {
        if src[i] == '\\' && i + 1 < src.len() {
            lemma_scan_string_bounds(src, i + 2);
        } else {
            lemma_scan_string_bounds(src, i + 1);
        }
    }
}

/// The token scanned at a valid position starts there, is non-empty,
/// stays within the input, is never `Eof`, and its recorded text is the
/// spanned source text (for a string literal, the contents between the
/// quotes).
pub proof fn lemma_token_at_wf(src: Seq<char>, j: int)
    requires
        0 <= j < src.len(),
    ensures
        ({
            let t = token_at(src, j);
            &&& t.start == j
            &&& j < t.end <= src.len()
            &&& t.kind != Token::Eof
            &&& (t.kind == Token::StringLit ==> t.end >= t.start + 2 && t.text == src.subrange(
                t.start + 1,
                t.end - 1,
            ) && src[t.start] == '"')
            &&& (t.kind != Token::StringLit ==> t.text == src.subrange(t.start, t.end))
            &&& (t.kind == Token::Error && src[t.start] != '"' ==> t.end == j + 1)
        }),
{
    reveal(token_at);
    let c = src[j];
    if c == '"' {
        if scan_string(src, j + 1) is Some {
            lemma_scan_string_bounds(src, j + 1);
        }
    } else if is_digit_char(c) {
        lemma_scan_bounds(src, j + 1);
        let d = scan_digits(src, j + 1);
        if d < src.len() && src[d] == '.' && d + 1 < src.len() && is_digit_char(src[d + 1]) {
            lemma_scan_bounds(src, d + 2);
        }
    } else if is_alpha_char(c) {
        lemma_scan_bounds(src, j + 1);
    }
}

/// Well-formedness of one proper (non-`Eof`) token found at or after
/// position `lo`: it is non-empty, lies within the input, and its
/// recorded text is the spanned source text (for a string literal, the
/// contents between the quotes).
pub open spec fn token_wf(src: Seq<char>, lo: int, t: LexedToken) -> bool {
    &&& t.kind != Token::Eof
    &&& lo <= t.start < t.end <= src.len()
    &&& (t.kind == Token::StringLit ==> t.end >= t.start + 2 && t.text == src.subrange(
        t.start + 1,
        t.end - 1,
    ) && src[t.start] == '"')
    &&& (t.kind != Token::StringLit ==> t.text == src.subrange(t.start, t.end))
}

/// Well-formedness of a token sequence lexed from position `i`: it is
/// non-empty, ends in exactly one `Eof` token spanning the end of input,
/// and its proper tokens are well formed and in source order.
pub open spec fn lex_wf(src: Seq<char>, i: int, ts: Seq<LexedToken>) -> bool {
    &&& ts.len() >= 1
    &&& ts.last() == eof_token(src.len() as int)
    &&& forall|k: int| 0 <= k < ts.len() - 1 ==> token_wf(src, i, #[trigger] ts[k])
    &&& forall|k: int| 0 <= k < ts.len() - 2 ==> (#[trigger] ts[k]).end <= ts[k + 1].start
}

/// The token sequence lexed from any valid position is well formed.
#[verifier::rlimit(100)]
pub proof fn lemma_lex_from_wf(src: Seq<char>, i: int)
    requires
        0 <= i <= src.len(),
    ensures
        lex_wf(src, i, spec_lex_from(src, i)),
    decreases chars_left(src, i),
{
    reveal_with_fuel(spec_lex_from, 1);
    lemma_skip_trivia_bounds(src, i);
    let j = skip_trivia(src, i);
    if j < src.len() {
        lemma_token_at_wf(src, j);
        let t = token_at(src, j);
        lemma_lex_from_wf(src, t.end);
        let rest = spec_lex_from(src, t.end);
        let ts = spec_lex_from(src, i);
        assert(ts == seq![t] + rest);
        assert(token_wf(src, i, t));
        assert forall|k: int| 0 <= k < ts.len() - 1 implies token_wf(src, i, #[trigger] ts[k]) by {
            if k > 0 {
                assert(ts[k] == rest[k - 1]);
                assert(token_wf(src, t.end, rest[k - 1]));
            }
        }
        assert forall|k: int| 0 <= k < ts.len() - 2 implies (#[trigger] ts[k]).end <= ts[k
            + 1].start by {
            if k == 0 {
                assert(ts[1] == rest[0]);
                assert(token_wf(src, t.end, rest[0]));
            } else {
                assert(ts[k] == rest[k - 1]);
                assert(ts[k + 1] == rest[k]);
            }
        }
    }
}

/// The token sequence of a whole source text is well formed.
pub proof fn lemma_lex_wf(src: Seq<char>)
    ensures
        lex_wf(src, 0, spec_lex(src)),
{
    lemma_lex_from_wf(src, 0);
}

/// Trivia skipping is idempotent: it stops at a position with no trivia
/// left to skip.
pub proof fn lemma_skip_trivia_idem(src: Seq<char>, i: int)
    requires
        0 <= i <= src.len(),
    ensures
        skip_trivia(src, skip_trivia(src, i)) == skip_trivia(src, i),
        skip_trivia(src, skip_comment(src, i)) == skip_comment(src, i),
    decreases chars_left(src, i),
{
    if i < src.len() {
        lemma_skip_trivia_idem(src, i + 1);
        if i + 2 <= src.len() {
            lemma_skip_trivia_idem(src, i + 2);
        }
    }
}

/// Scanning reads only the characters at and after the scan position:
/// prefixing the source shifts every trivia skip by the prefix's length.
pub proof fn lemma_skip_shift(a: Seq<char>, s: Seq<char>, i: int)
    requires
        0 <= i <= s.len(),
    ensures
        skip_trivia(a + s, a.len() + i) == a.len() + skip_trivia(s, i),
        skip_comment(a + s, a.len() + i) == a.len() + skip_comment(s, i),
    decreases chars_left(s, i),
{
    if i < s.len() {
        assert((a + s)[a.len() + i] == s[i]);
        if i + 1 < s.len() {
            assert((a + s)[a.len() + i + 1] == s[i + 1]);
        }
        lemma_skip_shift(a, s, i + 1);
        if i + 2 <= s.len() {
            lemma_skip_shift(a, s, i + 2);
        }
    }
}

/// The same shift for digit and identifier scans.
pub proof fn lemma_scan_shift(a: Seq<char>, s: Seq<char>, i: int)
    requires
        0 <= i <= s.len(),
    ensures
        scan_digits(a + s, a.len() + i) == a.len() + scan_digits(s, i),
        scan_ident(a + s, a.len() + i) == a.len() + scan_ident(s, i),
    decreases chars_left(s, i),
{
    if i < s.len() {
        assert((a + s)[a.len() + i] == s[i]);
        lemma_scan_shift(a, s, i + 1);
    }
}

/// The same shift for string scans.
pub proof fn lemma_scan_string_shift(a: Seq<char>, s: Seq<char>, i: int)
    requires
        0 <= i <= s.len(),
    ensures
        scan_string(a + s, a.len() + i) == match scan_string(s, i) {
            Some(e) => Some(a.len() + e),
            None => None::<int>,
        },
    decreases chars_left(s, i),
{
    if i < s.len() {
        assert((a + s)[a.len() + i] == s[i]);
        if i + 1 < s.len() {
            assert((a + s)[a.len() + i + 1] == s[i + 1]);
        }
        if s[i] != '"' {
            if s[i] == '\\' && i + 1 < s.len() {
                lemma_scan_string_shift(a, s, i + 2);
            } else if s[i] != '\\' {
                lemma_scan_string_shift(a, s, i + 1);
            }
        }
    }
}

/// A subrange of the suffix is unchanged by prefixing.
proof fn lemma_subrange_shift(a: Seq<char>, s: Seq<char>, x: int, y: int)
    requires
        0 <= x <= y <= s.len(),
    ensures
        (a + s).subrange(a.len() + x, a.len() + y) == s.subrange(x, y),
{
    assert((a + s).subrange(a.len() + x, a.len() + y) =~= s.subrange(x, y));
}

/// The token scanned at a position in the suffix is the suffix's token,
/// shifted: same kind and text, span moved by the prefix's length.
pub proof fn lemma_token_at_shift(a: Seq<char>, s: Seq<char>, j: int)
    requires
        0 <= j < s.len(),
    ensures
        ({
            let t1 = token_at(a + s, a.len() + j);
            let t2 = token_at(s, j);
            &&& t1.kind == t2.kind
            &&& t1.text == t2.text
            &&& t1.start == a.len() + t2.start
            &&& t1.end == a.len() + t2.end
        }),
{
    reveal(token_at);
    let c = s[j];
    assert((a + s)[a.len() + j] == c);
    if j + 1 < s.len() {
        assert((a + s)[a.len() + j + 1] == s[j + 1]);
    }
    if c == '"' {
        lemma_scan_string_shift(a, s, j + 1);
        match scan_string(s, j + 1) {
            Some(e) => {
                lemma_scan_string_bounds(s, j + 1);
                lemma_subrange_shift(a, s, j + 1, e - 1);
            },
            None => {
                lemma_subrange_shift(a, s, j, s.len() as int);
            },
        }
    } else if is_digit_char(c) {
        lemma_scan_shift(a, s, j + 1);
        lemma_scan_bounds(s, j + 1);
        let d = scan_digits(s, j + 1);
        if d < s.len() {
            assert((a + s)[a.len() + d] == s[d]);
        }
        if d + 1 < s.len() {
            assert((a + s)[a.len() + d + 1] == s[d + 1]);
        }
        if d < s.len() && s[d] == '.' && d + 1 < s.len() && is_digit_char(s[d + 1]) {
            lemma_scan_shift(a, s, d + 2);
            lemma_scan_bounds(s, d + 2);
            lemma_subrange_shift(a, s, j, scan_digits(s, d + 2));
        } else {
            lemma_subrange_shift(a, s, j, d);
        }
    } else if is_alpha_char(c) {
        lemma_scan_shift(a, s, j + 1);
        lemma_scan_bounds(s, j + 1);
        lemma_subrange_shift(a, s, j, scan_ident(s, j + 1));
    } else {
        lemma_token_at_wf(s, j);
        lemma_token_at_wf(a + s, a.len() + j);
        let t2 = token_at(s, j);
        lemma_subrange_shift(a, s, t2.start, t2.end);
    }
}

/// Prefixing the source leaves the suffix's token signatures unchanged:
/// the same kinds and texts come out, only the spans move.
pub proof fn lemma_lex_from_shift(a: Seq<char>, s: Seq<char>, i: int)
    requires
        0 <= i <= s.len(),
    ensures
        sigs(spec_lex_from(a + s, a.len() + i)) == sigs(spec_lex_from(s, i)),
    decreases chars_left(s, i),
{
    reveal_with_fuel(spec_lex_from, 1);
    lemma_skip_shift(a, s, i);
    lemma_skip_trivia_bounds(s, i);
    let j = skip_trivia(s, i);
    let ts1 = spec_lex_from(a + s, a.len() + i);
    let ts2 = spec_lex_from(s, i);
    if j == s.len() {
        assert(ts1 == seq![eof_token((a + s).len() as int)]);
        assert(ts2 == seq![eof_token(s.len() as int)]);
        assert(sigs(ts1) =~= sigs(ts2));
    } else {
        lemma_token_at_wf(s, j);
        lemma_token_at_shift(a, s, j);
        let t2 = token_at(s, j);
        let t1 = token_at(a + s, a.len() + j);
        lemma_lex_from_shift(a, s, t2.end);
        assert(ts1 == seq![t1] + spec_lex_from(a + s, a.len() + t2.end));
        assert(ts2 == seq![t2] + spec_lex_from(s, t2.end));
        let rest1 = spec_lex_from(a + s, a.len() + t2.end);
        let rest2 = spec_lex_from(s, t2.end);
        assert(sigs(rest1).len() == rest1.len());
        assert(sigs(rest2).len() == rest2.len());
        assert(rest1.len() == rest2.len());
        assert(ts1.len() == ts2.len());
        assert forall|k: int| 0 <= k < ts1.len() implies #[trigger] sigs(ts1)[k] == sigs(
            ts2,
        )[k] by {
            if k == 0 {
                assert(ts1[0] == t1);
                assert(ts2[0] == t2);
            } else {
                assert(ts1[k] == rest1[k - 1]);
                assert(ts2[k] == rest2[k - 1]);
                assert(sigs(rest1)[k - 1] == sigs(rest2)[k - 1]);
            }
        }
        assert(sigs(ts1) =~= sigs(ts2));
    }
}

/// A run of characters that the lexer consumes entirely as trivia
/// between two tokens: whitespace, and `//` comments each closed by a
/// newline (so the run cannot swallow what follows it).
pub open spec fn trivia_run(w: Seq<char>) -> bool
    decreases w.len(), 1int,
{
    ||| w.len() == 0
    ||| (w.len() >= 1 && is_ws_char(w[0]) && trivia_run(w.skip(1)))
    ||| (w.len() >= 2 && w[0] == '/' && w[1] == '/' && comment_then_trivia(w.skip(2)))
}

/// The tail of a comment inside a trivia run: characters up to a
/// newline that must occur, then more trivia.
pub open spec fn comment_then_trivia(w: Seq<char>) -> bool
    decreases w.len(), 0int,
{
    w.len() >= 1 && (if w[0] == '\n' {
        trivia_run(w.skip(1))
    } else {
        comment_then_trivia(w.skip(1))
    })
}

/// A trivia run prefixed to any source is skipped exactly, landing at
/// the first token of the suffix.
pub proof fn lemma_trivia_run_skips(w: Seq<char>, s: Seq<char>)
    requires
        trivia_run(w),
    ensures
        skip_trivia(w + s, 0) == w.len() + skip_trivia(s, 0),
    decreases w.len(), 1int,
{
    lemma_skip_trivia_bounds(s, 0);
    if w.len() == 0 {
        assert(w + s =~= s);
    } else if is_ws_char(w[0]) && trivia_run(w.skip(1)) {
        assert((w + s)[0] == w[0]);
        let w1 = w.skip(1);
        assert(w + s =~= w.take(1) + (w1 + s));
        lemma_trivia_run_skips(w1, s);
        lemma_skip_trivia_bounds(w1 + s, 0);
        lemma_skip_shift(w.take(1), w1 + s, 0);
        assert(skip_trivia(w + s, 0) == skip_trivia(w + s, 1));
        assert(skip_trivia(w.take(1) + (w1 + s), 1) == 1 + skip_trivia(w1 + s, 0));
    } else {
        assert((w + s)[0] == w[0] && (w + s)[1] == w[1]);
        let w2 = w.skip(2);
        assert(w + s =~= w.take(2) + (w2 + s));
        lemma_comment_run_skips(w2, s);
        lemma_skip_trivia_bounds(w2 + s, 0);
        lemma_skip_shift(w.take(2), w2 + s, 0);
        assert(skip_trivia(w + s, 0) == skip_comment(w + s, 2));
        assert(skip_comment(w.take(2) + (w2 + s), 2) == 2 + skip_comment(w2 + s, 0));
    }
}

/// The comment tail of a trivia run is skipped exactly by the comment
/// scanner.
pub proof fn lemma_comment_run_skips(w: Seq<char>, s: Seq<char>)
    requires
        comment_then_trivia(w),
    ensures
        skip_comment(w + s, 0) == w.len() + skip_trivia(s, 0),
    decreases w.len(), 0int,
{
    lemma_skip_trivia_bounds(s, 0);
    assert((w + s)[0] == w[0]);
    let w1 = w.skip(1);
    assert(w + s =~= w.take(1) + (w1 + s));
    if w[0] == '\n' {
        lemma_trivia_run_skips(w1, s);
        lemma_skip_trivia_bounds(w1 + s, 0);
        lemma_skip_shift(w.take(1), w1 + s, 0);
        assert(skip_comment(w + s, 0) == skip_trivia(w + s, 1));
        assert(skip_trivia(w.take(1) + (w1 + s), 1) == 1 + skip_trivia(w1 + s, 0));
    } else {
        lemma_comment_run_skips(w1, s);
        lemma_skip_trivia_bounds(w1 + s, 0);
        lemma_skip_shift(w.take(1), w1 + s, 0);
        assert(skip_comment(w + s, 0) == skip_comment(w + s, 1));
        assert(skip_comment(w.take(1) + (w1 + s), 1) == 1 + skip_comment(w1 + s, 0));
    }
}

/// Digit and identifier scans agree between two sources that share
/// their first `m` characters, when the first source's scan stays
/// within them and the second holds whitespace (or ends) at `m`.
proof fn lemma_scan_agree(s: Seq<char>, u: Seq<char>, i: int, m: int)
    requires
        0 <= i <= m,
        m <= s.len(),
        m <= u.len(),
        s.take(m) == u.take(m),
        m == u.len() || is_ws_char(u[m]),
    ensures
        scan_digits(s, i) <= m ==> scan_digits(u, i) == scan_digits(s, i),
        scan_ident(s, i) <= m ==> scan_ident(u, i) == scan_ident(s, i),
    decreases m - i,
{
    if i < m {
        assert(s[i] == s.take(m)[i]);
        assert(u[i] == u.take(m)[i]);
        lemma_scan_bounds(s, i);
        lemma_scan_agree(s, u, i + 1, m);
    } else {
        if m < u.len() {
            assert(!is_digit_char(u[m]));
            assert(!is_alnum_char(u[m]));
        }
        lemma_scan_bounds(s, i);
        lemma_scan_bounds(u, i);
    }
}

/// String scans agree between two sources that share their first `m`
/// characters, when the first source's scan closes within them.
proof fn lemma_scan_string_agree(s: Seq<char>, u: Seq<char>, i: int, m: int)
    requires
        0 <= i <= m,
        m <= s.len(),
        m <= u.len(),
        s.take(m) == u.take(m),
        scan_string(s, i) is Some,
        scan_string(s, i)->0 <= m,
    ensures
        scan_string(u, i) == scan_string(s, i),
    decreases m - i,
{
    lemma_scan_string_bounds(s, i);
    assert(s[i] == s.take(m)[i]);
    assert(u[i] == u.take(m)[i]);
    if s[i] != '"' {
        if s[i] == '\\' {
            lemma_scan_string_bounds(s, i + 2);
            assert(s[i + 1] == s.take(m)[i + 1]);
            assert(u[i + 1] == u.take(m)[i + 1]);
            lemma_scan_string_agree(s, u, i + 2, m);
        } else {
            lemma_scan_string_agree(s, u, i + 1, m);
        }
    }
}

/// The token scanned at `j` agrees between two sources that share their
/// first `m` characters, when it ends within them and the second source
/// holds whitespace (or ends) at `m`. Whitespace there can neither
/// extend a maximal-munch scan nor flip a two-character-operator or
/// decimal-point lookahead, so even a token ending exactly at `m` is
/// unchanged.
proof fn lemma_token_at_agree(s: Seq<char>, u: Seq<char>, j: int, m: int)
    requires
        0 <= j < m,
        m < s.len(),
        m <= u.len(),
        s.take(m) == u.take(m),
        token_at(s, j).end <= m,
        m == u.len() || is_ws_char(u[m]),
    ensures
        token_at(u, j) == token_at(s, j),
{
    reveal(token_at);
    lemma_token_at_wf(s, j);
    let t = token_at(s, j);
    assert forall|q: int| 0 <= q < m implies s[q] == u[q] by {
        assert(s[q] == s.take(m)[q]);
        assert(u[q] == u.take(m)[q]);
    }
    assert forall|x: int, y: int| 0 <= x && x <= y && y <= m implies s.subrange(x, y)
        == u.subrange(x, y) by {
        assert(s.subrange(x, y) =~= u.subrange(x, y));
    }
    let c = s[j];
    if c == '"' {
        match scan_string(s, j + 1) {
            Some(e) => {
                lemma_scan_string_bounds(s, j + 1);
                lemma_scan_string_agree(s, u, j + 1, m);
            },
            None => {
                // the error token would span to the end of the input,
                // past `m`; excluded by `t.end <= m < s.len()`
                assert(false);
            },
        }
    } else if is_digit_char(c) {
        lemma_scan_bounds(s, j + 1);
        lemma_scan_agree(s, u, j + 1, m);
        let d = scan_digits(s, j + 1);
        if d < s.len() && s[d] == '.' && d + 1 < s.len() && is_digit_char(s[d + 1]) {
            lemma_scan_bounds(s, d + 2);
            lemma_scan_agree(s, u, d + 2, m);
        }
    } else if is_alpha_char(c) {
        lemma_scan_bounds(s, j + 1);
        lemma_scan_agree(s, u, j + 1, m);
    }
}

/// Trivia skipping agrees between two sources that share their first
/// `m` characters, when the first source's skip stops strictly within
/// them and the second holds whitespace (or ends) at `m`.
proof fn lemma_skip_agree(s: Seq<char>, u: Seq<char>, i: int, m: int)
    requires
        0 <= i <= m,
        m <= s.len(),
        m <= u.len(),
        s.take(m) == u.take(m),
        m == u.len() || is_ws_char(u[m]),
    ensures
        skip_trivia(s, i) < m ==> skip_trivia(u, i) == skip_trivia(s, i),
        skip_comment(s, i) < m ==> skip_comment(u, i) == skip_comment(s, i),
    decreases m - i,
{
    lemma_skip_trivia_bounds(s, i);
    lemma_skip_trivia_bounds(u, i);
    if i < m {
        assert(s[i] == s.take(m)[i]);
        assert(u[i] == u.take(m)[i]);
        if i + 1 < m {
            assert(s[i + 1] == s.take(m)[i + 1]);
            assert(u[i + 1] == u.take(m)[i + 1]);
        }
        lemma_skip_agree(s, u, i + 1, m);
        if is_ws_char(s[i]) {
            // both skips step to `i + 1`
        } else if s[i] == '/' && i + 1 < s.len() && s[i + 1] == '/' {
            if i + 2 <= m {
                lemma_skip_trivia_bounds(s, i + 2);
                lemma_skip_trivia_bounds(u, i + 2);
                lemma_skip_agree(s, u, i + 2, m);
            } else {
                // the comment jump passes `m`, so neither skip result
                // can be below it
                lemma_skip_trivia_bounds(s, i + 2);
            }
        } else {
            // both skips stop at `i`: in `u`, a comment could only
            // start here if the character at `m` were a second slash,
            // and it is whitespace or absent
        }
    } else {
        // i == m: a skip stopping below `m` cannot start at it
    }
}

/// Trivia skipping that stops at `j` carries over when everything from
/// `j` on is replaced: the skip reads nothing past `j`, so it lands at
/// `j` and continues into the replacement.
proof fn lemma_skip_transfer(s: Seq<char>, i: int, j: int, r: Seq<char>)
    requires
        0 <= i <= s.len(),
        j < s.len(),
    ensures
        skip_trivia(s, i) == j ==> skip_trivia(s.take(j) + r, i) == j + skip_trivia(r, 0),
        skip_comment(s, i) == j ==> skip_comment(s.take(j) + r, i) == j + skip_trivia(r, 0),
    decreases chars_left(s, i),
{
    lemma_skip_trivia_bounds(s, i);
    let v = s.take(j) + r;
    if i < j {
        assert(v[i] == s[i]);
        if i + 1 < j {
            assert(v[i + 1] == s[i + 1]);
        }
        lemma_skip_transfer(s, i + 1, j, r);
        if i + 2 <= s.len() {
            lemma_skip_transfer(s, i + 2, j, r);
        }
        if skip_trivia(s, i) == j && !is_ws_char(s[i]) && s[i] == '/' && i + 1 < s.len() && s[i
            + 1] == '/' {
            lemma_skip_trivia_bounds(s, i + 2);
            assert(i + 1 < j);
        }
    } else if i == j {
        lemma_skip_shift(s.take(j), r, 0);
        assert(s.take(j).len() == j);
        if skip_trivia(s, i) == j {
            // the skip stopped here: `s[j]` is no trivia, which also
            // rules out `skip_comment(s, j) == j`
        }
        if skip_comment(s, i) == j {
            lemma_skip_trivia_bounds(s, j + 1);
            assert(false);
        }
    }
}

/// Lexing from a position sees only the source from the next token
/// start on: the token signatures equal those of that suffix lexed from
/// its beginning.
proof fn lemma_lex_from_at_skip(s: Seq<char>, i: int)
    requires
        0 <= i <= s.len(),
    ensures
        sigs(spec_lex_from(s, i)) == sigs(spec_lex_from(s.skip(skip_trivia(s, i)), 0)),
{
    reveal_with_fuel(spec_lex_from, 1);
    lemma_skip_trivia_bounds(s, i);
    lemma_skip_trivia_idem(s, i);
    let j = skip_trivia(s, i);
    assert(s == s.take(j) + s.skip(j)) by {
        assert(s =~= s.take(j) + s.skip(j));
    }
    lemma_skip_shift(s.take(j), s.skip(j), 0);
    lemma_skip_trivia_bounds(s.skip(j), 0);
    assert(spec_lex_from(s, i) == spec_lex_from(s, j));
    lemma_lex_from_shift(s.take(j), s.skip(j), 0);
}

/// Inserting a trivia run at the start of the first token from a scan
/// position leaves the token signatures unchanged: the skip runs up to
/// that start as before, straight through the inserted run, and the
/// rest of the source is merely shifted.
proof fn lemma_insert_trivia_first(s: Seq<char>, i: int, w: Seq<char>)
    requires
        0 <= i <= s.len(),
        trivia_run(w),
        spec_lex_from(s, i).len() >= 2,
    ensures
        ({
            let p = spec_lex_from(s, i)[0].start;
            sigs(spec_lex_from(s.take(p) + (w + s.skip(p)), i)) == sigs(spec_lex_from(s, i))
        }),
{
    reveal_with_fuel(spec_lex_from, 1);
    lemma_skip_trivia_bounds(s, i);
    lemma_skip_trivia_idem(s, i);
    let ts = spec_lex_from(s, i);
    let j = skip_trivia(s, i);
    assert(j < s.len());
    lemma_token_at_wf(s, j);
    assert(ts[0].start == j);
    let u = s.take(j) + (w + s.skip(j));
    assert(skip_trivia(s.skip(j), 0) == 0) by {
        lemma_skip_trivia_bounds(s, j + 1);
        if j + 2 <= s.len() {
            lemma_skip_trivia_bounds(s, j + 2);
        }
        assert(skip_trivia(s, j) == j);
        assert(!is_ws_char(s[j]));
        assert(!(s[j] == '/' && j + 1 < s.len() && s[j + 1] == '/'));
        assert((s.skip(j))[0] == s[j]);
        if 1 < s.skip(j).len() {
            assert((s.skip(j))[1] == s[j + 1]);
        }
    }
    assert(skip_trivia(u, i) == j + w.len()) by {
        lemma_skip_transfer(s, i, j, w + s.skip(j));
        lemma_trivia_run_skips(w, s.skip(j));
        lemma_skip_trivia_bounds(s.skip(j), 0);
    }
    lemma_lex_from_at_skip(u, i);
    lemma_lex_from_at_skip(s, i);
    assert(u.skip(j + w.len()) =~= s.skip(j));
}

/// Inserting a trivia run that begins with whitespace at the start of
/// any proper token leaves the token signatures unchanged from any scan
/// position. (The whitespace requirement on the first inserted
/// character matters only between two tokens: a bare `//` comment
/// inserted directly after a `/` token would fuse with it into a
/// comment.)
/// Signatures of two token sequences with the same head token and
/// signature-equal tails are equal.
proof fn lemma_sigs_cons(t0: LexedToken, ts1: Seq<LexedToken>, ts2: Seq<LexedToken>)
    requires
        ts1.len() >= 1,
        ts2.len() >= 1,
        ts1[0] == t0,
        ts2[0] == t0,
        sigs(ts1.skip(1)) == sigs(ts2.skip(1)),
    ensures
        sigs(ts1) == sigs(ts2),
{
    assert(sigs(ts1.skip(1)).len() == ts1.skip(1).len());
    assert(sigs(ts2.skip(1)).len() == ts2.skip(1).len());
    assert(ts1.len() == ts2.len());
    assert forall|q: int| 0 <= q < ts1.len() implies #[trigger] sigs(ts1)[q] == sigs(
        ts2,
    )[q] by {
        assert(sigs(ts1)[q] == sig_of(ts1[q]));
        assert(sigs(ts2)[q] == sig_of(ts2[q]));
        if q == 0 {
            assert(ts1[q] == t0);
            assert(ts2[q] == t0);
        } else {
            assert(ts1[q] == ts1.skip(1)[q - 1]);
            assert(ts2[q] == ts2.skip(1)[q - 1]);
            assert(sigs(ts1.skip(1))[q - 1] == sig_of(ts1.skip(1)[q - 1]));
            assert(sigs(ts2.skip(1))[q - 1] == sig_of(ts2.skip(1)[q - 1]));
            assert(sigs(ts1.skip(1))[q - 1] == sigs(ts2.skip(1))[q - 1]);
        }
    }
    assert(sigs(ts1) =~= sigs(ts2));
}

/// Inserting whitespace-led trivia strictly past the first token's end
/// leaves the skip to that token and the token itself unchanged.
proof fn lemma_insert_head(s: Seq<char>, i: int, p: int, w: Seq<char>)
    requires
        0 <= i <= s.len(),
        w.len() >= 1,
        is_ws_char(w[0]),
        skip_trivia(s, i) < p,
        p < s.len(),
        token_at(s, skip_trivia(s, i)).end <= p,
    ensures
        ({
            let u = s.take(p) + (w + s.skip(p));
            let j = skip_trivia(s, i);
            skip_trivia(u, i) == j && token_at(u, j) == token_at(s, j)
        }),
{
    let u = s.take(p) + (w + s.skip(p));
    let j = skip_trivia(s, i);
    lemma_skip_trivia_bounds(s, i);
    assert(u.len() == s.len() + w.len());
    assert(u[p] == w[0]);
    assert(u.take(p) =~= s.take(p));
    lemma_skip_agree(s, u, i, p);
    lemma_token_at_agree(s, u, j, p);
}

/// The shape of a lexed sequence around its first token, digested for
/// the insertion proof: how the sequence decomposes and where the
/// `k`-th token start lies relative to the first token.
#[verifier::rlimit(100)]
proof fn lemma_insert_digest(s: Seq<char>, i: int, k: int)
    requires
        0 <= i <= s.len(),
        1 <= k < spec_lex_from(s, i).len() - 1,
    ensures
        ({
            let ts = spec_lex_from(s, i);
            let j = skip_trivia(s, i);
            let t0 = token_at(s, j);
            &&& i <= j < s.len()
            &&& j == t0.start < t0.end <= s.len()
            &&& ts == seq![t0] + spec_lex_from(s, t0.end)
            &&& 0 <= k - 1 < spec_lex_from(s, t0.end).len() - 1
            &&& spec_lex_from(s, t0.end)[k - 1] == ts[k]
            &&& t0.end <= ts[k].start
            &&& ts[k].start < s.len()
        }),
{
    reveal_with_fuel(spec_lex_from, 1);
    lemma_skip_trivia_bounds(s, i);
    lemma_lex_from_wf(s, i);
    let j = skip_trivia(s, i);
    assert(j < s.len());
    lemma_token_at_wf(s, j);
    let t0 = token_at(s, j);
    lemma_lex_from_wf(s, t0.end);
    let rest = spec_lex_from(s, t0.end);
    assert(spec_lex_from(s, i) == seq![t0] + rest);
    assert(spec_lex_from(s, i)[k] == rest[k - 1]);
    assert(token_wf(s, t0.end, rest[k - 1]));
}

/// The combining step of the insertion proof: with the first token
/// unchanged and the suffix's signatures preserved, the whole
/// sequence's signatures are preserved.
proof fn lemma_insert_combine(s: Seq<char>, i: int, p: int, w: Seq<char>)
    requires
        0 <= i <= s.len(),
        w.len() >= 1,
        is_ws_char(w[0]),
        i <= skip_trivia(s, i) < p,
        p < s.len(),
        ({
            let j = skip_trivia(s, i);
            let t0 = token_at(s, j);
            &&& j == t0.start < t0.end <= s.len()
            &&& t0.end <= p
            &&& sigs(spec_lex_from(s.take(p) + (w + s.skip(p)), t0.end)) == sigs(
                spec_lex_from(s, t0.end),
            )
        }),
    ensures
        sigs(spec_lex_from(s.take(p) + (w + s.skip(p)), i)) == sigs(spec_lex_from(s, i)),
{
    reveal_with_fuel(spec_lex_from, 1);
    let j = skip_trivia(s, i);
    let t0 = token_at(s, j);
    let u = s.take(p) + (w + s.skip(p));
    lemma_insert_head(s, i, p, w);
    assert(u.len() == s.len() + w.len());
    let ts = spec_lex_from(s, i);
    let ts1 = spec_lex_from(u, i);
    assert(ts == seq![t0] + spec_lex_from(s, t0.end));
    assert(ts1 == seq![t0] + spec_lex_from(u, t0.end));
    assert(ts.skip(1) =~= spec_lex_from(s, t0.end));
    assert(ts1.skip(1) =~= spec_lex_from(u, t0.end));
    lemma_sigs_cons(t0, ts1, ts);
}

#[verifier::rlimit(100)]
pub proof fn lemma_insert_trivia_from(s: Seq<char>, i: int, k: int, w: Seq<char>)
    requires
        0 <= i <= s.len(),
        trivia_run(w),
        w.len() >= 1,
        is_ws_char(w[0]),
        0 <= k < spec_lex_from(s, i).len() - 1,
    ensures
        ({
            let p = spec_lex_from(s, i)[k].start;
            sigs(spec_lex_from(s.take(p) + (w + s.skip(p)), i)) == sigs(spec_lex_from(s, i))
        }),
    decreases k,
{
    if k == 0 {
        lemma_insert_trivia_first(s, i, w);
    } else {
        lemma_insert_digest(s, i, k);
        let t0 = token_at(s, skip_trivia(s, i));
        lemma_insert_trivia_from(s, t0.end, k - 1, w);
        lemma_insert_combine(s, i, spec_lex_from(s, i)[k].start, w);
    }
}

/// Every proper token's start is a position within the source.
pub proof fn lemma_token_start_bounds(s: Seq<char>, k: int)
    requires
        0 <= k < spec_lex(s).len() - 1,
    ensures
        0 <= spec_lex(s)[k].start <= s.len(),
{
    lemma_lex_wf(s);
    assert(token_wf(s, 0, spec_lex(s)[k]));
}

/// The diagnostics recorded while lexing from position `i` on, in scan
/// order: one per `Error` token.
pub open spec fn spec_diags_from(src: Seq<char>, i: int) -> Seq<SpecDiag>
    decreases chars_left(src, i),
{
    let j = skip_trivia(src, i);
    if !(i <= j <= src.len()) {
        arbitrary()
    } else if j == src.len() {
        Seq::empty()
    } else {
        let t = token_at(src, j);
        if j < t.end <= src.len() {
            (if t.kind == Token::Error {
                seq![diag_of_token(src, t)]
            } else {
                Seq::empty()
            }) + spec_diags_from(src, t.end)
        } else {
            arbitrary()
        }
    }
}

/// The diagnostics of a whole source text: what `tokenize` appends.
pub open spec fn spec_lex_diags(src: Seq<char>) -> Seq<SpecDiag> {
    spec_diags_from(src, 0)
}

/// What `tokenize` guarantees of its two result vectors: they are
/// exactly the kinds and the spans of `spec_lex`'s tokens, in order.
pub open spec fn tokens_match(src: Seq<char>, kinds: Seq<Token>, spans: Seq<Span>) -> bool {
    let ts = spec_lex(src);
    &&& kinds.len() == ts.len()
    &&& spans.len() == ts.len()
    &&& forall|k: int| 0 <= k < ts.len() ==> (#[trigger] kinds[k]) == ts[k].kind
    &&& forall|k: int|
        0 <= k < ts.len() ==> (#[trigger] spans[k]).start == ts[k].start && spans[k].end
            == ts[k].end
}

/// What `tokenize` guarantees of the diagnostics vector: the entries
/// already present are untouched, and exactly the diagnostics of
/// `spec_lex_diags` follow them, in order.
pub open spec fn diags_appended(
    src: Seq<char>,
    before: Seq<Diagnostic>,
    after: Seq<Diagnostic>,
) -> bool {
    let ds = spec_lex_diags(src);
    &&& after.len() == before.len() + ds.len()
    &&& forall|k: int| 0 <= k < before.len() ==> (#[trigger] after[k]) == before[k]
    &&& forall|k: int| 0 <= k < ds.len() ==> (#[trigger] after[before.len() + k])@ == ds[k]
}

/// Whether the character at `i` (if any) is an ASCII digit.
fn digit_at(source: &str, n: usize, i: usize) -> (b: bool)
    requires
        n == source@.len(),
    ensures
        b == (i < n && is_digit_char(source@[i as int])),
{
    if i < n {
        let cu = source.get_char(i) as u32;
        48 <= cu && cu <= 57
    } else {
        false
    }
}

/// Whether the character at `i` (if any) may continue an identifier.
fn alnum_at(source: &str, n: usize, i: usize) -> (b: bool)
    requires
        n == source@.len(),
    ensures
        b == (i < n && is_alnum_char(source@[i as int])),
{
    if i < n {
        let c = source.get_char(i);
        let cu = c as u32;
        (97 <= cu && cu <= 122) || (65 <= cu && cu <= 90) || c == '_' || (48 <= cu && cu <= 57)
    } else {
        false
    }
}

/// Whether the character after `j` makes a two-character operator.
fn eq_next(source: &str, n: usize, j: usize) -> (b: bool)
    requires
        n == source@.len(),
        j < n,
    ensures
        b == has_equal_next(source@, j as int),
{
    j + 1 < n && source.get_char(j + 1) == '='
}

/// The executable form of `skip_trivia`.
fn skip_trivia_exec(source: &str, n: usize, from: usize) -> (r: usize)
    requires
        n == source@.len(),
        from <= n,
    ensures
        r as int == skip_trivia(source@, from as int),
        from <= r <= n,
{
    let ghost src = source@;
    proof {
        lemma_skip_trivia_bounds(src, from as int);
    }
    let mut i: usize = from;
    loop
        invariant
            src == source@,
            n == src.len(),
            from <= i <= n,
            skip_trivia(src, from as int) == skip_trivia(src, i as int),
        decreases n - i,
    {
        if i >= n {
            return i;
        }
        let c = source.get_char(i);
        if c == ' ' || c == '\t' || c == '\r' || c == '\n' {
            i += 1;
        } else if c == '/' && i + 1 < n && source.get_char(i + 1) == '/' {
            i += 2;
            proof {
                lemma_skip_trivia_bounds(src, i as int);
            }
            let ghost c0 = i as int;
            while comment_continues(source, n, i)
                invariant
                    src == source@,
                    n == src.len(),
                    i <= n,
                    from as int + 2 <= c0 <= i as int,
                    skip_trivia(src, from as int) == skip_comment(src, i as int),
                decreases n - i,
            {
                i += 1;
            }
        } else {
            return i;
        }
    }
}

/// Whether the comment body continues at `i` (no newline yet).
fn comment_continues(source: &str, n: usize, i: usize) -> (b: bool)
    requires
        n == source@.len(),
    ensures
        b == (i < n && source@[i as int] != '\n'),
{
    i < n && source.get_char(i) != '\n'
}

/// The executable form of `scan_digits`.
fn scan_digits_exec(source: &str, n: usize, from: usize) -> (r: usize)
    requires
        n == source@.len(),
        from <= n,
    ensures
        r as int == scan_digits(source@, from as int),
        from <= r <= n,
{
    let ghost src = source@;
    let mut i: usize = from;
    while digit_at(source, n, i)
        invariant
            src == source@,
            n == src.len(),
            from <= i <= n,
            scan_digits(src, from as int) == scan_digits(src, i as int),
        decreases n - i,
    {
        i += 1;
    }
    i
}

/// The executable form of `scan_ident`.
fn scan_ident_exec(source: &str, n: usize, from: usize) -> (r: usize)
    requires
        n == source@.len(),
        from <= n,
    ensures
        r as int == scan_ident(source@, from as int),
        from <= r <= n,
{
    let ghost src = source@;
    let mut i: usize = from;
    while alnum_at(source, n, i)
        invariant
            src == source@,
            n == src.len(),
            from <= i <= n,
            scan_ident(src, from as int) == scan_ident(src, i as int),
        decreases n - i,
    {
        i += 1;
    }
    i
}

/// The executable form of `scan_string`: whether a closing quote was
/// found, and if so the position just past it.
fn scan_string_exec(source: &str, n: usize, from: usize) -> (r: (bool, usize))
    requires
        n == source@.len(),
        from <= n,
    ensures
        match scan_string(source@, from as int) {
            Some(e) => r.0 && r.1 as int == e,
            None => !r.0,
        },
{
    let ghost src = source@;
    let mut i: usize = from;
    loop
        invariant
            src == source@,
            n == src.len(),
            from <= i <= n,
            scan_string(src, from as int) == scan_string(src, i as int),
        decreases n - i,
    {
        if i >= n {
            return (false, 0);
        }
        let c = source.get_char(i);
        if c == '"' {
            return (true, i + 1);
        } else if c == '\\' {
            if i + 1 < n {
                i += 2;
            } else {
                return (false, 0);
            }
        } else {
            i += 1;
        }
    }
}

/// The keyword table: classify the identifier-shaped run `[start, end)`.
fn keyword_token(source: &str, start: usize, end: usize) -> (k: Token)
    requires
        start < end <= source@.len(),
    ensures
        k == keyword_of(source@.subrange(start as int, end as int)),
{
    let ghost text = source@.subrange(start as int, end as int);
    let len = end - start;
    if len == 2 && source.get_char(start) == 'o' && source.get_char(start + 1) == 'r' {
        proof {
            assert(text =~= seq!['o', 'r']);
        }
        Token::Or
    } else if len == 3 && source.get_char(start) == 'n' && source.get_char(start + 1) == 'i'
        && source.get_char(start + 2) == 'l' {
        proof {
            assert(text =~= seq!['n', 'i', 'l']);
        }
        Token::Nil
    } else if len == 3 && source.get_char(start) == 'v' && source.get_char(start + 1) == 'a'
        && source.get_char(start + 2) == 'r' {
        proof {
            assert(text =~= seq!['v', 'a', 'r']);
        }
        Token::Var
    } else if len == 3 && source.get_char(start) == 'a' && source.get_char(start + 1) == 'n'
        && source.get_char(start + 2) == 'd' {
        proof {
            assert(text =~= seq!['a', 'n', 'd']);
        }
        Token::And
    } else if len == 4 && source.get_char(start) == 't' && source.get_char(start + 1) == 'r'
        && source.get_char(start + 2) == 'u' && source.get_char(start + 3) == 'e' {
        proof {
            assert(text =~= seq!['t', 'r', 'u', 'e']);
        }
        Token::True
    } else if len == 5 && source.get_char(start) == 'f' && source.get_char(start + 1) == 'a'
        && source.get_char(start + 2) == 'l' && source.get_char(start + 3) == 's'
        && source.get_char(start + 4) == 'e' {
        proof {
            assert(text =~= seq!['f', 'a', 'l', 's', 'e']);
        }
        Token::False
    } else if len == 5 && source.get_char(start) == 'p' && source.get_char(start + 1) == 'r'
        && source.get_char(start + 2) == 'i' && source.get_char(start + 3) == 'n'
        && source.get_char(start + 4) == 't' {
        proof {
            assert(text =~= seq!['p', 'r', 'i', 'n', 't']);
        }
        Token::Print
    } else {
        proof {
            assert(text.len() == end - start);
            assert(forall|m: int|
                0 <= m < text.len() ==> text[m] == source@[start + m]);
        }
        Token::Identifier
    }
}

/// The executable form of `token_at`: the kind and the end of the token
/// starting at `j`.
fn scan_token(source: &str, n: usize, j: usize) -> (r: (Token, usize))
    requires
        n == source@.len(),
        j < n,
    ensures
        r.0 == token_at(source@, j as int).kind,
        r.1 as int == token_at(source@, j as int).end,
        j < r.1 <= n,
{
    let ghost src = source@;
    proof {
        reveal(token_at);
        lemma_token_at_wf(src, j as int);
    }
    let c = source.get_char(j);
    let cu = c as u32;
    if c == '(' {
        (Token::LeftParen, j + 1)
    } else if c == ')' {
        (Token::RightParen, j + 1)
    } else if c == ';' {
        (Token::Semicolon, j + 1)
    } else if c == '+' {
        (Token::Plus, j + 1)
    } else if c == '-' {
        (Token::Minus, j + 1)
    } else if c == '*' {
        (Token::Star, j + 1)
    } else if c == '/' {
        (Token::Slash, j + 1)
    } else if c == '!' {
        if eq_next(source, n, j) {
            (Token::BangEqual, j + 2)
        } else {
            (Token::Bang, j + 1)
        }
    } else if c == '=' {
        if eq_next(source, n, j) {
            (Token::EqualEqual, j + 2)
        } else {
            (Token::Equal, j + 1)
        }
    } else if c == '>' {
        if eq_next(source, n, j) {
            (Token::GreaterEqual, j + 2)
        } else {
            (Token::Greater, j + 1)
        }
    } else if c == '<' {
        if eq_next(source, n, j) {
            (Token::LessEqual, j + 2)
        } else {
            (Token::Less, j + 1)
        }
    } else if c == '"' {
        let (closed, e) = scan_string_exec(source, n, j + 1);
        if closed {
            (Token::StringLit, e)
        } else {
            (Token::Error, n)
        }
    } else if 48 <= cu && cu <= 57 {
        let d = scan_digits_exec(source, n, j + 1);
        if d < n && source.get_char(d) == '.' && digit_at(source, n, d + 1) {
            let d2 = scan_digits_exec(source, n, d + 2);
            (Token::Number, d2)
        } else {
            (Token::Number, d)
        }
    } else if (97 <= cu && cu <= 122) || (65 <= cu && cu <= 90) || c == '_' {
        let e = scan_ident_exec(source, n, j + 1);
        (keyword_token(source, j, e), e)
    } else {
        (Token::Error, j + 1)
    }
}

/// The lexer: one left-to-right pass producing every token's kind and
/// span — exactly `spec_lex`'s tokens — and appending one diagnostic per
/// lexical error, without ever failing. The final `Eof` token carries a
/// zero-width span at end of input.
pub fn tokenize(source: &str, diags: &mut Vec<Diagnostic>) -> (r: (Vec<Token>, Vec<Span>))
    ensures
        tokens_match(source@, r.0@, r.1@),
        diags_appended(source@, old(diags)@, final(diags)@),
{
    let ghost src = source@;
    let n = source.unicode_len();
    let mut kinds: Vec<Token> = Vec::new();
    let mut spans: Vec<Span> = Vec::new();
    let ghost mut done: Seq<LexedToken> = Seq::empty();
    let ghost mut ddone: Seq<SpecDiag> = Seq::empty();
    let ghost base = diags@.len() as int;

    proof {
        lemma_skip_trivia_bounds(src, 0);
        lemma_skip_trivia_idem(src, 0);
    }
    let mut i = skip_trivia_exec(source, n, 0);
    proof {
        reveal_with_fuel(spec_lex_from, 1);
        assert(spec_lex_from(src, 0) == spec_lex_from(src, i as int));
        assert(spec_diags_from(src, 0) == spec_diags_from(src, i as int));
    }
    while i < n
        invariant
            src == source@,
            n == src.len(),
            i <= n,
            i as int == skip_trivia(src, i as int),
            spec_lex(src) == done + spec_lex_from(src, i as int),
            spec_lex_diags(src) == ddone + spec_diags_from(src, i as int),
            kinds@.len() == done.len(),
            spans@.len() == done.len(),
            forall|k: int| 0 <= k < done.len() ==> (#[trigger] kinds@[k]) == done[k].kind,
            forall|k: int|
                0 <= k < done.len() ==> (#[trigger] spans@[k]).start == done[k].start
                    && spans@[k].end == done[k].end,
            diags@.len() == base + ddone.len(),
            base == old(diags)@.len(),
            forall|k: int| 0 <= k < base ==> (#[trigger] diags@[k]) == old(diags)@[k],
            forall|k: int| 0 <= k < ddone.len() ==> (#[trigger] diags@[base + k])@ == ddone[k],
        decreases n - i,
    {
        proof {
            lemma_token_at_wf(src, i as int);
        }
        let ghost t = token_at(src, i as int);
        let (kind, end) = scan_token(source, n, i);
        kinds.push(kind);
        spans.push(Span { start: i, end });
        proof {
            done = done + seq![t];
        }
        if kind == Token::Error {
            let err = if source.get_char(i) == '"' {
                LexerError::UnterminatedString
            } else {
                LexerError::Invalid
            };
            diags.push(Diagnostic { error: err, span: Span { start: i, end } });
            proof {
                ddone = ddone + seq![diag_of_token(src, t)];
            }
        }
        let next = skip_trivia_exec(source, n, end);
        proof {
            reveal_with_fuel(spec_lex_from, 1);
            lemma_skip_trivia_idem(src, end as int);
            assert(spec_lex_from(src, end as int) == spec_lex_from(src, next as int));
            assert(spec_diags_from(src, end as int) == spec_diags_from(src, next as int));
            assert(spec_lex(src) == done + spec_lex_from(src, next as int));
            assert(spec_lex_diags(src) == ddone + spec_diags_from(src, next as int));
        }
        i = next;
    }
    kinds.push(Token::Eof);
    spans.push(Span { start: n, end: n });
    proof {
        reveal_with_fuel(spec_lex_from, 1);
        done = done + seq![eof_token(src.len() as int)];
        assert(spec_lex_from(src, i as int) == seq![eof_token(src.len() as int)]);
        assert(spec_diags_from(src, i as int) == Seq::<SpecDiag>::empty());
        assert(spec_lex(src) == done);
        assert(spec_lex_diags(src) == ddone);
    }
    (kinds, spans)
}

} // verus!
