//! The laws this library proves about parsing as a whole: precedence
//! and associativity discipline of every accepted tree, independence of
//! the tree from token positions, invariance under leading trivia, and
//! success on trivia-only input.

use vstd::prelude::*;

use crate::ast::{stmt_well_leveled, SpecStmt};
use crate::lexer::{
    chars_left, eof_token, is_ws_char, lemma_insert_trivia_from, lemma_lex_from_shift,
    lemma_skip_shift, lemma_skip_trivia_bounds, lemma_trivia_run_skips, skip_trivia, spec_lex,
    spec_lex_from, trivia_run,
};
use crate::parser::{lemma_lex_sigs_wf, lemma_props_program, sp_program, spec_parse};
use crate::token::{sig_of, sigs, SpecError};

verus! {

/// Precedence and associativity, structurally: every statement of every
/// program the parser accepts is `stmt_well_leveled` — under each binary
/// node the left operand sits at the operator's tier or tighter and the
/// right operand strictly tighter, and under each unary operator only a
/// unary operator or an atom. So `*`/`/` bind tighter than `+`/`-`,
/// those tighter than comparisons, those tighter than `==`/`!=`, those
/// tighter than `and`, and that tighter than `or`; chains of one tier
/// can only associate to the left; a looser operator appears beneath a
/// tighter one only through explicit parentheses.
pub proof fn lemma_parse_respects_precedence(src: Seq<char>)
    ensures
        match spec_parse(src) {
            Ok(prog) => forall|i: int|
                0 <= i < prog.len() ==> stmt_well_leveled(#[trigger] prog[i]),
            Err(_) => true,
        },
{
    reveal(spec_parse);
    lemma_lex_sigs_wf(src);
    lemma_props_program(sigs(spec_lex(src)), 0);
}

/// The tree depends on the tokens' kinds and texts alone, never on
/// their positions: two sources that lex to the same token signatures
/// parse to the same statements, or fail with the same error kind at
/// the same token index (only the reported span can differ, since the
/// tokens may sit at different positions).
pub proof fn lemma_token_signatures_determine_parse(src1: Seq<char>, src2: Seq<char>)
    requires
        sigs(spec_lex(src1)) == sigs(spec_lex(src2)),
    ensures
        match (spec_parse(src1), spec_parse(src2)) {
            (Ok(a), Ok(b)) => a == b,
            (Err(e1), Err(e2)) => e1.kind == e2.kind,
            _ => false,
        },
{
    reveal(spec_parse);
    lemma_lex_sigs_wf(src1);
    lemma_lex_sigs_wf(src2);
    lemma_props_program(sigs(spec_lex(src1)), 0);
    lemma_props_program(sigs(spec_lex(src2)), 0);
}

/// Inserting whitespace and newline-closed `//` comments in front of a
/// source leaves its token signatures — and hence, by
/// `lemma_token_signatures_determine_parse`, its parse tree — unchanged.
pub proof fn lemma_leading_trivia_preserves_tokens(w: Seq<char>, s: Seq<char>)
    requires
        trivia_run(w),
    ensures
        sigs(spec_lex(w + s)) == sigs(spec_lex(s)),
{
    reveal_with_fuel(spec_lex_from, 1);
    lemma_trivia_run_skips(w, s);
    lemma_skip_trivia_bounds(s, 0);
    lemma_skip_shift(w, s, 0);
    lemma_skip_trivia_bounds(w + s, 0);
    assert(spec_lex_from(w + s, 0) == spec_lex_from(w + s, w.len() as int));
    lemma_lex_from_shift(w, s, 0);
}

/// Comment/whitespace invariance at the front of the program: a run of
/// whitespace and newline-closed comments inserted before the first
/// token changes neither the statements parsed nor the kind of error
/// reported.
pub proof fn lemma_leading_trivia_preserves_parse(w: Seq<char>, s: Seq<char>)
    requires
        trivia_run(w),
    ensures
        match (spec_parse(w + s), spec_parse(s)) {
            (Ok(a), Ok(b)) => a == b,
            (Err(e1), Err(e2)) => e1.kind == e2.kind,
            _ => false,
        },
{
    lemma_leading_trivia_preserves_tokens(w, s);
    lemma_token_signatures_determine_parse(w + s, s);
}

/// Comment/whitespace invariance inside the program: inserting a run of
/// whitespace and newline-closed comments that begins with a whitespace
/// character at the start of any proper token (any position `k` before
/// the end-of-input token) changes neither the statements parsed nor
/// the kind of error reported.
///
/// The whitespace-first requirement is necessary, not convenience: a
/// bare `//` comment inserted directly after a `/` token fuses with it
/// into a comment and changes the parse (insert `//c` with its newline
/// before the `2` of `1 /2;`). A run of any shape at the very front of
/// the program is covered by `lemma_leading_trivia_preserves_parse`.
pub proof fn lemma_trivia_insertion_preserves_parse(s: Seq<char>, k: int, w: Seq<char>)
    requires
        trivia_run(w),
        w.len() == 0 || is_ws_char(w[0]),
        0 <= k < spec_lex(s).len() - 1,
    ensures
        ({
            let p = spec_lex(s)[k].start;
            match (spec_parse(s.take(p) + (w + s.skip(p))), spec_parse(s)) {
                (Ok(a), Ok(b)) => a == b,
                (Err(e1), Err(e2)) => e1.kind == e2.kind,
                _ => false,
            }
        }),
{
    let p = spec_lex(s)[k].start;
    if w.len() == 0 {
        crate::lexer::lemma_token_start_bounds(s, k);
        assert(s.take(p) + (w + s.skip(p)) =~= s);
    } else {
        lemma_insert_trivia_from(s, 0, k, w);
    }
    lemma_token_signatures_determine_parse(s.take(p) + (w + s.skip(p)), s);
}

/// A source whose characters are all trivia to the lexer lexes to the
/// lone end-of-input token, so it parses to zero statements.
pub proof fn lemma_trivia_only_parses_empty(src: Seq<char>)
    requires
        skip_trivia(src, 0) == src.len(),
    ensures
        spec_parse(src) == Ok::<Seq<SpecStmt>, SpecError>(Seq::empty()),
{
    reveal(spec_parse);
    reveal_with_fuel(sp_program, 1);
    reveal_with_fuel(crate::lexer::spec_lex_from, 1);
    assert(spec_lex(src) == seq![eof_token(src.len() as int)]);
    lemma_lex_sigs_wf(src);
    let t = sigs(spec_lex(src));
    assert(t[0] == sig_of(eof_token(src.len() as int)));
}

/// In an all-whitespace source, trivia skipping runs to the end.
pub proof fn lemma_ws_run_skipped(src: Seq<char>, i: int)
    requires
        0 <= i <= src.len(),
        forall|k: int| 0 <= k < src.len() ==> is_ws_char(#[trigger] src[k]),
    ensures
        skip_trivia(src, i) == src.len(),
    decreases chars_left(src, i),
{
    if i < src.len() {
        lemma_ws_run_skipped(src, i + 1);
    }
}

/// Empty or whitespace-only input parses successfully to a program with
/// zero statements.
pub proof fn lemma_whitespace_parses_empty(src: Seq<char>)
    requires
        forall|k: int| 0 <= k < src.len() ==> is_ws_char(#[trigger] src[k]),
    ensures
        spec_parse(src) == Ok::<Seq<SpecStmt>, SpecError>(Seq::empty()),
{
    lemma_ws_run_skipped(src, 0);
    lemma_trivia_only_parses_empty(src);
}

} // verus!
