//! The visual-confirmation barrier of the control plane.
//!
//! A control call that wants confirmation records the tick counter the
//! render loop publishes, releases the lock, and polls: the change is
//! guaranteed visible once at least two render ticks have completed since
//! the mutation.  The caller decides when to stop polling (or, with no
//! render loop attached, falls back to a fixed worst-case delay), so the
//! barrier itself can never deadlock the render loop.

use vstd::prelude::*;

verus! {

/// Whether the mutation made at tick count `ticks_at_request` is confirmed
/// visible at tick count `ticks_now`: at least two render ticks have
/// completed in between.
pub fn confirmation_done(ticks_at_request: u64, ticks_now: u64) -> (done: bool)
    ensures
        done <==> ticks_now >= ticks_at_request + 2,
{
    ticks_now >= ticks_at_request && ticks_now - ticks_at_request >= 2
}

} // verus!
