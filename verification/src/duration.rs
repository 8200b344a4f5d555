//! Time spans with nanosecond resolution.

use vstd::prelude::*;

verus! {

/// Number of nanoseconds in one second.
pub const NANOS_PER_SEC: u128 = 1_000_000_000;

/// Number of nanoseconds in one millisecond.
pub const NANOS_PER_MILLI: u128 = 1_000_000;

/// Number of nanoseconds in the longest span: `u64::MAX` seconds and
/// 999 999 999 nanoseconds.
pub const MAX_NANOS: u128 = 18_446_744_073_709_551_615_999_999_999;

/// A span of time, seen by contracts as its number of nanoseconds.
#[derive(Debug, Clone, Copy, PartialEq, Eq, Structural, Hash)]
pub struct Duration {
    nanos: u128,
}

impl View for Duration {
    type V = nat;

    closed spec fn view(&self) -> nat {
        self.nanos as nat
    }
}

impl Duration {
    #[verifier::type_invariant]
    spec fn in_range(self) -> bool {
        self.nanos <= MAX_NANOS
    }

    /// A span of `nanos` nanoseconds, unless that is longer than the longest
    /// span.
    pub fn checked_from_nanos(nanos: u128) -> (duration: Option<Duration>)
        ensures
            duration is Some <==> nanos <= MAX_NANOS,
            duration matches Some(d) ==> d@ == nanos,
    {
        if nanos <= MAX_NANOS {
            Some(Duration { nanos })
        } else {
            None
        }
    }

    /// The longest span.
    pub fn longest() -> (duration: Duration)
        ensures
            duration@ == MAX_NANOS,
    {
        Duration { nanos: MAX_NANOS }
    }

    /// The empty span.
    pub fn zero() -> (duration: Duration)
        ensures
            duration@ == 0,
    {
        Duration { nanos: 0 }
    }

    /// A span of whole seconds.
    pub fn from_secs(secs: u64) -> (duration: Duration)
        ensures
            duration@ == secs * NANOS_PER_SEC,
    {
        Duration { nanos: secs as u128 * NANOS_PER_SEC }
    }

    /// A span of whole milliseconds.
    pub fn from_millis(millis: u64) -> (duration: Duration)
        ensures
            duration@ == millis * NANOS_PER_MILLI,
    {
        Duration { nanos: millis as u128 * NANOS_PER_MILLI }
    }

    /// A span of nanoseconds.
    pub fn from_nanos(nanos: u64) -> (duration: Duration)
        ensures
            duration@ == nanos,
    {
        Duration { nanos: nanos as u128 }
    }

    /// The whole seconds of the span.
    pub fn as_secs(self) -> (secs: u64)
        ensures
            secs == self@ / 1_000_000_000,
    {
        proof {
            use_type_invariant(&self);
        }
        (self.nanos / NANOS_PER_SEC) as u64
    }

    /// The number of whole milliseconds.
    pub fn as_millis(self) -> (millis: u128)
        ensures
            millis == self@ / NANOS_PER_MILLI as nat,
    {
        self.nanos / NANOS_PER_MILLI
    }

    /// The number of nanoseconds of the span.
    pub fn as_nanos(&self) -> (nanos: u128)
        ensures
            nanos == self@,
            nanos <= MAX_NANOS,
    {
        proof {
            use_type_invariant(self);
        }
        self.nanos
    }

    /// The sum of two spans, unless it is longer than the longest span.
    pub fn checked_add(self, other: Duration) -> (sum: Option<Duration>)
        ensures
            sum is Some <==> self@ + other@ <= MAX_NANOS,
            sum matches Some(d) ==> d@ == self@ + other@,
    {
        Duration::checked_from_nanos(self.as_nanos() + other.as_nanos())
    }

    /// What is left of the span without `other`.
    pub fn saturating_sub(self, other: Duration) -> (difference: Duration)
        ensures
            difference@ == if self@ <= other@ {
                0
            } else {
                self@ - other@
            },
    {
        proof {
            use_type_invariant(&self);
        }
        if self.nanos <= other.nanos {
            Duration { nanos: 0 }
        } else {
            Duration { nanos: self.nanos - other.nanos }
        }
    }

    /// The difference between two spans.
    pub fn abs_diff(self, other: Duration) -> (difference: Duration)
        ensures
            difference@ == if self@ <= other@ {
                other@ - self@
            } else {
                self@ - other@
            },
    {
        if self.as_nanos() <= other.as_nanos() {
            other.saturating_sub(self)
        } else {
            self.saturating_sub(other)
        }
    }

    /// The span taken `times` times, with `more` nanoseconds added, divided by
    /// `divisor`.
    pub fn fraction(self, times: u8, more: u128, divisor: u8) -> (part: Duration)
        requires
            divisor > 0,
            self@ * times + more <= MAX_NANOS,
        ensures
            part@ == (self@ * times + more) / divisor as int,
    {
        let total: u128 = self.as_nanos() * times as u128 + more;
        assert(total / divisor as u128 <= total) by {
            vstd::arithmetic::div_mod::lemma_div_is_ordered_by_denominator(
                total as int,
                1,
                divisor as int,
            );
        }
        Duration { nanos: total / divisor as u128 }
    }

    /// Whether the span is empty.
    pub fn is_zero(&self) -> (zero: bool)
        ensures
            zero <==> self@ == 0,
    {
        self.nanos == 0
    }
}

} // verus!
