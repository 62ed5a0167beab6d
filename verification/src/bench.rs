//! A small measurement harness around the parser: run it repeatedly on
//! one input and report the wall-clock time together with how many runs
//! succeeded.
//!
//! The clock readings are opaque to verification — nothing is assumed of
//! them — but the success count is exact: the parser is deterministic,
//! so either every iteration succeeds or none does.

use vstd::prelude::*;

use crate::parser::{parse_program, spec_parse};
use std::time::Duration;
use std::time::Instant;

verus! {

#[verifier::external_type_specification]
#[verifier::external_body]
pub struct ExInstant(Instant);

/// Relies on std::time::Instant::now: an opaque reading of a monotonic
/// clock. Nothing is assumed of its value.
pub assume_specification[ Instant::now ]() -> Instant;

/// Relies on std::time::Instant::elapsed: the time since the reading was
/// taken. Nothing is assumed of its value.
pub assume_specification[ Instant::elapsed ](i: &Instant) -> Duration;

/// Parse `input` `iterations` times, returning how long that took and
/// how many runs succeeded: all of them when the input parses, none
/// otherwise.
pub fn benchmark_parser(input: &str, iterations: usize) -> (r: (Duration, usize))
    ensures
        r.1 == if spec_parse(input@) is Ok {
            iterations as int
        } else {
            0int
        },
{
    let start = Instant::now();
    let mut successes: usize = 0;
    let mut it: usize = 0;
    while it < iterations
        invariant
            it <= iterations,
            successes as int == if spec_parse(input@) is Ok {
                it as int
            } else {
                0int
            },
        decreases iterations - it,
    {
        if parse_program(input).is_ok() {
            successes += 1;
        }
        it += 1;
    }
    (start.elapsed(), successes)
}

} // verus!
