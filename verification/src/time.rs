//! Monotonic instants and durations, in whole milliseconds.

use vstd::prelude::*;

verus! {

/// A point on the host's monotonic clock, as milliseconds since an
/// arbitrary epoch. Epoch zero (`Instant::zero()`) is earlier than or equal
/// to every instant the clock will ever report.
#[derive(Debug, Clone, Copy, PartialEq, Eq, Structural)]
pub struct Instant {
    pub millis: u64,
}

/// A span of time, in milliseconds.
#[derive(Debug, Clone, Copy, PartialEq, Eq, Structural)]
pub struct Duration {
    pub millis: u64,
}

impl Instant {
    /// The epoch itself; used as "due immediately" for retransmit deadlines.
    pub fn zero() -> (r: Instant)
        ensures
            r.millis == 0,
    {
        Instant { millis: 0 }
    }

    /// The instant `d` later than `self`.
    pub fn plus(&self, d: Duration) -> (r: Instant)
        requires
            self.millis + d.millis <= u64::MAX,
        ensures
            r.millis == self.millis + d.millis,
    {
        Instant { millis: self.millis + d.millis }
    }
}

impl Duration {
    pub fn from_millis(millis: u64) -> (r: Duration)
        ensures
            r.millis == millis,
    {
        Duration { millis }
    }
}

} // verus!
