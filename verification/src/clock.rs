//! The engine's one view of time: opaque clock readings and the
//! microseconds elapsed since one was taken.

use vstd::prelude::*;
use std::time::Instant;

verus! {

#[verifier::external_type_specification]
#[verifier::external_body]
pub struct ExInstant(Instant);

/// Relies on std::time::Instant::now: an opaque reading of a monotonic
/// clock. Nothing is promised of its value.
#[verifier::external_body]
pub fn instant_now() -> (t: Instant) {
    Instant::now()
}

/// Relies on std::time::Instant::elapsed: the time since `t` was taken,
/// given out in whole microseconds (clipped to `u64` range). Nothing is
/// promised of the value: the clock decides.
#[verifier::external_body]
pub fn elapsed_micros(t: &Instant) -> (r: u64) {
    t.elapsed().as_micros().try_into().unwrap_or(u64::MAX)
}

} // verus!
