use vstd::prelude::*;

use std::time::Instant;

verus! {

#[verifier::external_type_specification]
#[verifier::external_body]
pub struct ExInstant(Instant);

/// Relies on std's `Instant::now`: an opaque reading of the monotonic clock.
#[verifier::external_body]
pub fn clock_now() -> (r: Instant) {
    Instant::now()
}

/// Relies on std's `Instant::elapsed` and `Duration::as_millis`: the whole
/// milliseconds passed since `start` was taken. The value depends on the
/// clock, so nothing is assumed of it.
#[verifier::external_body]
pub fn elapsed_millis(start: &Instant) -> (r: u64) {
    start.elapsed().as_millis() as u64
}

} // verus!
