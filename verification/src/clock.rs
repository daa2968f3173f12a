//! Instants and durations.

use vstd::prelude::*;

verus! {

/// A moment, in nanoseconds since an arbitrary origin.
pub type Instant = u64;

/// A span of time, in nanoseconds.
pub type Duration = u64;

/// How long after `since` the moment `now` is, or zero when it is earlier.
pub open spec fn elapsed(now: Instant, since: Instant) -> int {
    if now >= since {
        now - since
    } else {
        0
    }
}

/// How long after `since` the moment `now` is, or zero when it is earlier.
pub fn duration_since(now: Instant, since: Instant) -> (r: Duration)
    ensures
        r == elapsed(now, since),
{
    if now >= since {
        now - since
    } else {
        0
    }
}

} // verus!
