//! The one randomness source of the engine.
//!
//! Every random decision (cone sampling, sweep orientation, hue draws) is a
//! uniform integer draw; the callers are verified for every value the draw
//! can produce.

use vstd::prelude::*;

verus! {

/// Relies on rand::random_range over the half-open `i64` range `lo..hi`: the
/// draw lies in the range.  The call panics only on an empty range, which the
/// precondition rules out.
#[verifier::external_body]
pub(crate) fn random_in(lo: i64, hi: i64) -> (r: i64)
    requires
        lo < hi,
    ensures
        lo <= r < hi,
{
    rand::random_range(lo..hi)
}

} // verus!
