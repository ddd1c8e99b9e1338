//! Timestamp arithmetic shared by both limiters.
//!
//! Time reaches the library as plain seconds read by the caller from one
//! clock, so both limiters agree on elapsed time and window boundaries.
//! Arithmetic on timestamps saturates: a clock irregularity (a reading
//! earlier than a stored window start) counts as zero elapsed time and
//! can never panic.

use vstd::prelude::*;

verus! {

/// Seconds elapsed from `start` to `now`, saturating at zero when the
/// clock ran backwards.
pub open spec fn spec_elapsed(now: u64, start: u64) -> int {
    if now >= start {
        now - start
    } else {
        0
    }
}

/// Saturating elapsed time between two clock readings.
pub fn elapsed(now: u64, start: u64) -> (r: u64)
    ensures
        r == spec_elapsed(now, start),
{
    if now >= start {
        now - start
    } else {
        0
    }
}

/// The index of the fixed window that `now` falls in: elapsed process
/// time divided by the window length.
pub open spec fn spec_epoch_of(now: u64, window: u64) -> int
    recommends
        window >= 1,
{
    now as int / window as int
}

/// The current epoch for a window length.
pub fn epoch_of(now: u64, window: u64) -> (r: u64)
    requires
        window >= 1,
    ensures
        r == spec_epoch_of(now, window),
{
    now / window
}

} // verus!
