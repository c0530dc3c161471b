//! Spans of time and points on a monotonic clock, in nanoseconds.

use vstd::prelude::*;

verus! {

/// A span of time.
#[derive(Clone, Copy, Debug, PartialEq, Eq, Hash, Structural)]
pub struct Duration {
    pub nanos: u128,
}

/// A point in time, counted from the start of a monotonic clock.
#[derive(Clone, Copy, Debug, PartialEq, Eq, Hash, Structural)]
pub struct Instant {
    pub nanos: u128,
}

impl Duration {
    pub fn from_secs(secs: u64) -> (r: Self)
        ensures
            r.nanos == secs * 1_000_000_000,
    {
        Duration { nanos: secs as u128 * 1_000_000_000 }
    }

    pub fn from_millis(millis: u64) -> (r: Self)
        ensures
            r.nanos == millis * 1_000_000,
    {
        Duration { nanos: millis as u128 * 1_000_000 }
    }

    pub fn from_micros(micros: u64) -> (r: Self)
        ensures
            r.nanos == micros * 1_000,
    {
        Duration { nanos: micros as u128 * 1_000 }
    }

    /// Whole milliseconds, reduced to 64 bits.
    pub fn millis(self) -> (r: u64)
        ensures
            r as int == (self.nanos as int / 1_000_000) % 0x1_0000_0000_0000_0000,
    {
        ((self.nanos / 1_000_000) % 0x1_0000_0000_0000_0000) as u64
    }

    /// Whole microseconds, reduced to 64 bits.
    pub fn micros(self) -> (r: u64)
        ensures
            r as int == (self.nanos as int / 1_000) % 0x1_0000_0000_0000_0000,
    {
        ((self.nanos / 1_000) % 0x1_0000_0000_0000_0000) as u64
    }
}

/// The time from `earlier` to `later`; zero where `earlier` comes second.
pub open spec fn elapsed(later: Instant, earlier: Instant) -> nat {
    if later.nanos >= earlier.nanos {
        (later.nanos - earlier.nanos) as nat
    } else {
        0
    }
}

impl Instant {
    /// The time since `earlier`; zero where `earlier` comes after this point.
    pub fn duration_since(&self, earlier: Instant) -> (r: Duration)
        ensures
            r.nanos == elapsed(*self, earlier),
    {
        if self.nanos >= earlier.nanos {
            Duration { nanos: self.nanos - earlier.nanos }
        } else {
            Duration { nanos: 0 }
        }
    }

    /// The point that comes `d` later; `None` where the clock cannot count so far.
    pub fn checked_add(&self, d: Duration) -> (r: Option<Instant>)
        ensures
            match r {
                Some(t) => t.nanos == self.nanos + d.nanos,
                None => self.nanos + d.nanos > u128::MAX,
            },
    {
        match self.nanos.checked_add(d.nanos) {
            Some(nanos) => Some(Instant { nanos }),
            None => None,
        }
    }
}

/// The time between two instants is the difference of their nanoseconds; an instant that is not
/// later is no time away.
pub proof fn law_time_passes(later: Instant, earlier: Instant)
    ensures
        later.nanos >= earlier.nanos ==> elapsed(later, earlier) + earlier.nanos == later.nanos,
        later.nanos <= earlier.nanos ==> elapsed(later, earlier) == 0,
{
}

} // verus!
