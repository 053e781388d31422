//! Points in time and spans of time, counted in whole nanoseconds.

use vstd::prelude::*;

verus! {

/// The longest span that a `Duration` stands for, in nanoseconds: the largest
/// number of whole seconds that fits 64 bits, and 999 999 999 nanoseconds.
pub const DURATION_MAX_NANOS: u128 = 18_446_744_073_709_551_615_999_999_999u128;

/// A span of time.
#[derive(Clone, Copy, Debug, PartialEq, Eq, Structural)]
pub struct Duration {
    /// Length of the span in nanoseconds.
    pub nanos: u128,
}

/// A point of a clock that never goes back.
#[derive(Clone, Copy, Debug, PartialEq, Eq, Structural)]
pub struct Instant {
    /// Nanoseconds since the origin of the clock.
    pub nanos: u128,
}

impl Duration {
    /// A span of `millis` milliseconds.
    pub fn from_millis(millis: u64) -> (d: Duration)
        ensures
            d.nanos == millis * 1_000_000,
    {
        Duration { nanos: millis as u128 * 1_000_000 }
    }

    /// A span of `secs` seconds.
    pub fn from_secs(secs: u64) -> (d: Duration)
        ensures
            d.nanos == secs * 1_000_000_000,
    {
        Duration { nanos: secs as u128 * 1_000_000_000 }
    }

    /// `factor` times this span.
    pub fn times(&self, factor: u32) -> (d: Duration)
        requires
            self.nanos * factor <= DURATION_MAX_NANOS,
        ensures
            d.nanos == self.nanos * factor,
    {
        Duration { nanos: self.nanos * factor as u128 }
    }

    /// The part of this span that is left once `other` is taken off, which is
    /// nothing when `other` is the longer one.
    pub fn saturating_sub(&self, other: Duration) -> (d: Duration)
        ensures
            d.nanos == if self.nanos >= other.nanos {
                self.nanos - other.nanos
            } else {
                0
            },
    {
        if self.nanos >= other.nanos {
            Duration { nanos: self.nanos - other.nanos }
        } else {
            Duration { nanos: 0 }
        }
    }

    /// The shorter of two spans.
    pub fn min(self, other: Duration) -> (d: Duration)
        ensures
            d.nanos == if self.nanos <= other.nanos {
                self.nanos
            } else {
                other.nanos
            },
    {
        if self.nanos <= other.nanos {
            self
        } else {
            other
        }
    }
}

impl Instant {
    /// The point that comes `d` after this one.
    pub fn after(&self, d: Duration) -> (t: Instant)
        requires
            self.nanos + d.nanos <= u128::MAX,
        ensures
            t.nanos == self.nanos + d.nanos,
    {
        Instant { nanos: self.nanos + d.nanos }
    }

    /// Time that passed since `earlier`, which is nothing when `earlier` is the
    /// later of the two.
    pub fn duration_since(&self, earlier: Instant) -> (d: Duration)
        ensures
            d.nanos == since(self.nanos as int, earlier.nanos as int),
    {
        if self.nanos >= earlier.nanos {
            Duration { nanos: self.nanos - earlier.nanos }
        } else {
            Duration { nanos: 0 }
        }
    }
}

/// Nanoseconds from `earlier` to `now`, at least none.
pub open spec fn since(now: int, earlier: int) -> int {
    if now >= earlier {
        now - earlier
    } else {
        0
    }
}

/// The time that passed leads from the earlier point to the later one, and none has
/// passed up to a point that is still to come.
pub proof fn time_passes_forward(now: int, earlier: int)
    ensures
        since(now, earlier) >= 0,
        earlier <= now ==> earlier + since(now, earlier) == now,
        now <= earlier ==> since(now, earlier) == 0,
{
}

/// A millisecond is a million nanoseconds, and a second is a thousand milliseconds.
pub proof fn units_of_time_go_together(n: u64, a: Duration, b: Duration)
    requires
        call_ensures(Duration::from_millis, (n,), a),
        call_ensures(Duration::from_secs, (n,), b),
    ensures
        a.nanos == n * 1_000_000,
        b.nanos == 1000 * a.nanos,
{
}

/// A point in time that comes a span after another one is as far from it, and the other one is
/// not after it.
pub proof fn spans_lead_to_later_points(a: Instant, d: Duration, b: Instant, e: Duration, f: Duration)
    requires
        call_ensures(Instant::after, (&a, d), b),
        call_ensures(Instant::duration_since, (&b, a), e),
        call_ensures(Instant::duration_since, (&a, b), f),
    ensures
        e == d,
        f.nanos == 0,
{
}

/// What is left of a span when another one is taken off, and the shorter of the two, make the
/// span again.
pub proof fn spans_are_taken_apart(a: Duration, b: Duration, c: Duration, d: Duration)
    requires
        call_ensures(Duration::saturating_sub, (&a, b), c),
        call_ensures(Duration::min, (a, b), d),
    ensures
        c.nanos + d.nanos == a.nanos,
        d == a || d == b,
        d.nanos <= a.nanos && d.nanos <= b.nanos,
{
}

} // verus!
