//! Points in time and spans between them, counted in nanoseconds.

use vstd::prelude::*;

verus! {

/// The longest span that saturating arithmetic yields: `u64::MAX` seconds and
/// 999_999_999 nanoseconds.
pub const MAX_DURATION_NANOS: u128 = 18_446_744_073_709_551_615_999_999_999;

/// The monotonic clock of the standard library.
#[verifier::external_type_specification]
#[verifier::external_body]
pub struct ExInstant(std::time::Instant);

/// `std::time::Instant::now`: a reading of the monotonic clock. Nothing is
/// claimed of the reading.
pub assume_specification[ std::time::Instant::now ]() -> std::time::Instant;

/// Reads the monotonic clock.
///
/// What is read depends on the machine alone, so the contract says only where it comes from;
/// the rest of the library takes its points in time as [`Timestamp`] arguments.
pub fn now() -> (t: std::time::Instant)
    ensures
        call_ensures(std::time::Instant::now, (), t),
{
    std::time::Instant::now()
}

/// A span of time.
#[derive(Clone, Copy, Debug, PartialEq, Eq, Structural)]
pub struct Duration {
    pub nanos: u128,
}

/// A point in time: nanoseconds since some fixed moment before the node started.
#[derive(Clone, Copy, Debug, PartialEq, Eq, Structural)]
pub struct Timestamp {
    pub nanos: u128,
}

/// The smaller of two integers.
pub open spec fn min_int(a: int, b: int) -> int {
    if a <= b {
        a
    } else {
        b
    }
}

/// The larger of two integers.
pub open spec fn max_int(a: int, b: int) -> int {
    if a >= b {
        a
    } else {
        b
    }
}

impl Duration {
    /// `secs` whole seconds.
    pub fn from_secs(secs: u64) -> (d: Duration)
        ensures
            d.nanos == secs * 1_000_000_000,
    {
        Duration { nanos: secs as u128 * 1_000_000_000 }
    }

    /// The longer of the two spans.
    pub fn max(self, other: Duration) -> (d: Duration)
        ensures
            d.nanos == max_int(self.nanos as int, other.nanos as int),
    {
        if self.nanos >= other.nanos {
            self
        } else {
            other
        }
    }

    /// The span divided by `n`, rounded down to a nanosecond.
    pub fn divided_by(self, n: u32) -> (d: Duration)
        requires
            n > 0,
        ensures
            d.nanos == self.nanos as int / n as int,
    {
        Duration { nanos: self.nanos / (n as u128) }
    }

    /// The span times `n`, at most [`MAX_DURATION_NANOS`].
    pub fn saturating_mul(self, n: u32) -> (d: Duration)
        ensures
            d.nanos == min_int(self.nanos * n, MAX_DURATION_NANOS as int),
    {
        if n == 0 {
            return Duration { nanos: 0 };
        }
        let limit: u128 = MAX_DURATION_NANOS / (n as u128);
        if self.nanos > limit {
            proof {
                let (s, m, k) = (self.nanos as int, MAX_DURATION_NANOS as int, n as int);
                assert(s * k >= m) by (nonlinear_arith)
                    requires
                        s >= m / k + 1,
                        k > 0,
                ;
            }
            Duration { nanos: MAX_DURATION_NANOS }
        } else {
            proof {
                let (s, m, k) = (self.nanos as int, MAX_DURATION_NANOS as int, n as int);
                assert(s * k <= m) by (nonlinear_arith)
                    requires
                        0 <= s <= m / k,
                        k > 0,
                ;
            }
            Duration { nanos: self.nanos * (n as u128) }
        }
    }

    /// What is left of the span after `other`, or zero.
    pub fn saturating_sub(self, other: Duration) -> (d: Duration)
        ensures
            d.nanos == max_int(self.nanos - other.nanos, 0),
    {
        if self.nanos >= other.nanos {
            Duration { nanos: self.nanos - other.nanos }
        } else {
            Duration { nanos: 0 }
        }
    }
}

impl Timestamp {
    /// Nanoseconds from `earlier` to here; zero if `earlier` is the later one.
    pub open spec fn nanos_since(self, earlier: Timestamp) -> nat {
        max_int(self.nanos - earlier.nanos, 0) as nat
    }

    /// The span from `earlier` to here; zero if `earlier` is the later one.
    pub fn since(self, earlier: Timestamp) -> (d: Duration)
        ensures
            d.nanos == self.nanos_since(earlier),
    {
        if self.nanos >= earlier.nanos {
            Duration { nanos: self.nanos - earlier.nanos }
        } else {
            Duration { nanos: 0 }
        }
    }
}

/// A span reaches exactly from the earlier point to the later one, and there is none backwards.
pub proof fn law_span_between_points(earlier: Timestamp, later: Timestamp)
    requires
        earlier.nanos <= later.nanos,
    ensures
        earlier.nanos + later.nanos_since(earlier) == later.nanos,
        earlier.nanos_since(later) == 0,
{
}

/// The smaller and the larger of two integers are those two, in order.
pub proof fn law_smaller_and_larger(a: int, b: int)
    ensures
        min_int(a, b) <= max_int(a, b),
        min_int(a, b) == a && max_int(a, b) == b || min_int(a, b) == b && max_int(a, b) == a,
{
}

} // verus!
