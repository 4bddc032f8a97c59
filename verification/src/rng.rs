//! The one source of randomness: a bounded draw from the thread-local
//! generator.

use vstd::prelude::*;

verus! {

/// Relies on rand::random_range: a draw from the integer range `0..n` is a
/// value below `n`; the range must be non-empty, or the call panics.
/// Nothing more is promised: two calls on the same input may differ.
#[verifier::external_body]
pub fn rand_below(n: usize) -> (r: usize)
    requires
        n > 0,
    ensures
        r < n,
{
    rand::random_range(0..n)
}

} // verus!
