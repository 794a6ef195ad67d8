//! Reading command-line values.
use vstd::prelude::*;
use std::time::Duration;
use crate::text::{chars_of, lemma_parse_unsigned_bounded, parse_decimal, parse_unsigned, NumberError};

verus! {

/// The duration of `ms` milliseconds (what `Duration::from_millis` returns).
pub uninterp spec fn duration_of_millis(ms: u64) -> Duration;

/// `Duration::from_millis`.
#[verifier::external_body]
fn duration_from_millis(ms: u64) -> (d: Duration)
    ensures
        d == duration_of_millis(ms),
{
    Duration::from_millis(ms)
}

/// Reads a timeout given in milliseconds: `time` must be a decimal number of
/// milliseconds that fits in a `u64` (an optional `+`, no whitespace).
pub fn timeout_from_millis_str(time: &str) -> (r: Result<Duration, NumberError>)
    ensures
        match parse_unsigned(time@, u64::MAX as int) {
            Ok(v) => r == Ok::<Duration, NumberError>(duration_of_millis(v as u64)),
            Err(e) => r == Err::<Duration, NumberError>(e),
        },
{
    let chars = chars_of(time);
    proof {
        lemma_parse_unsigned_bounded(time@, u64::MAX as int);
    }
    match parse_decimal(&chars, u64::MAX) {
        Ok(ms) => Ok(duration_from_millis(ms)),
        Err(e) => Err(e),
    }
}

} // verus!
