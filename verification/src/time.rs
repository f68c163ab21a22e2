//! Spans of time and points on the monotonic clock, as plain integers.

use vstd::prelude::*;

verus! {

/// A span of time: whole seconds and the nanoseconds beyond them.
#[derive(Clone, Copy, Debug, PartialEq, Eq, Structural)]
pub struct Duration {
    pub secs: u64,
    pub nanos: u32,
}

/// The nanoseconds in a second.
pub const NANOS_PER_SEC: u32 = 1_000_000_000;

impl Duration {
    /// The span in nanoseconds.
    pub open spec fn total(self) -> int {
        self.secs * 1_000_000_000 + self.nanos
    }

    /// A span of whole seconds.
    pub fn from_secs(secs: u64) -> (r: Self)
        ensures
            r == (Duration { secs, nanos: 0 }),
    {
        Duration { secs, nanos: 0 }
    }

    /// A span of whole milliseconds.
    pub fn from_millis(millis: u64) -> (r: Self)
        ensures
            r.total() == millis * 1_000_000,
            r.nanos < NANOS_PER_SEC,
    {
        Duration { secs: millis / 1000, nanos: ((millis % 1000) * 1_000_000) as u32 }
    }

    /// The span in nanoseconds.
    pub fn as_nanos(self) -> (r: i128)
        ensures
            r == self.total(),
            0 <= r < 0x4000_0000_0000_0000_0000_0000,
    {
        self.secs as i128 * 1_000_000_000 + self.nanos as i128
    }
}

/// A point on the monotonic clock, in nanoseconds from a fixed origin.
#[derive(Clone, Copy, Debug, PartialEq, Eq, Structural)]
pub struct Instant {
    pub nanos: i128,
}

impl Instant {
    /// The point `d` before this one, unless it lies outside the clock.
    pub fn checked_sub(self, d: Duration) -> (r: Option<Instant>)
        ensures
            match r {
                Some(t) => t.nanos == self.nanos - d.total(),
                None => self.nanos - d.total() < i128::MIN,
            },
    {
        let n = d.as_nanos();
        match self.nanos.checked_sub(n) {
            Some(nanos) => Some(Instant { nanos }),
            None => None,
        }
    }

    /// The point `d` after this one, which must lie on the clock.
    pub fn after(self, d: Duration) -> (r: Instant)
        requires
            self.nanos + d.total() <= i128::MAX,
        ensures
            r.nanos == self.nanos + d.total(),
    {
        Instant { nanos: self.nanos + d.as_nanos() }
    }

    /// Whether this point lies before `other`.
    pub fn before(self, other: Instant) -> (r: bool)
        ensures
            r == (self.nanos < other.nanos),
    {
        self.nanos < other.nanos
    }
}

} // verus!
