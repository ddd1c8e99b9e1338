//! Limiter configuration and the shared saturating counter step.

use vstd::prelude::*;

verus! {

/// Immutable configuration of one limiter: `capacity` admissions per
/// fixed window of `window` seconds. Supplied once at construction and
/// never changed at runtime.
#[derive(Clone, Copy, PartialEq, Eq, Structural, Debug)]
pub struct LimiterConfig {
    /// Requests admitted per window.
    pub capacity: u32,
    /// Window length in seconds; always at least one second.
    pub window: u64,
}

/// A request counter after one more request is charged against
/// `capacity`: it increments until it has exceeded the capacity by one,
/// then stays put, so sustained abuse can never overflow it.
pub open spec fn spec_counted(count: u32, capacity: u32) -> u32 {
    if count <= capacity && count < u32::MAX {
        (count + 1) as u32
    } else {
        count
    }
}

/// The largest value a counter ever holds: one past the capacity, capped
/// at the integer's range.
pub open spec fn spec_count_cap(capacity: u32) -> u32 {
    if capacity < u32::MAX {
        (capacity + 1) as u32
    } else {
        u32::MAX
    }
}

/// Charge one request against a capacity, saturating.
pub fn counted(count: u32, capacity: u32) -> (r: u32)
    ensures
        r == spec_counted(count, capacity),
{
    if count <= capacity && count < u32::MAX {
        count + 1
    } else {
        count
    }
}

} // verus!
