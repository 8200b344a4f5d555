//! Round-trip time and retransmission timeout.

use vstd::prelude::*;

use crate::duration::{Duration, MAX_NANOS};
use crate::reliable_core::congestion::{greater, lesser};

verus! {

/// Smoothed round-trip time, its variation, and the timeout derived from them.
#[derive(Debug, Clone, Copy, PartialEq, Eq, Structural)]
pub struct RttEstimator {
    pub srtt: Option<Duration>,
    pub rttvar: Duration,
    pub rto: Duration,
    pub initial_rto: Duration,
    pub min_rto: Duration,
    pub max_rto: Duration,
    pub granularity: Duration,
}

/// The distance between two numbers.
pub open spec fn distance(left: nat, right: nat) -> nat {
    if left <= right {
        (right - left) as nat
    } else {
        (left - right) as nat
    }
}

/// The timeout for a smoothed round-trip time and its variation.
pub open spec fn timeout_for(srtt: nat, rttvar: nat, estimator: RttEstimator) -> int {
    let variance = greater((rttvar * 4) as int, estimator.granularity@ as int);
    greater(
        estimator.min_rto@ as int,
        lesser(srtt + variance, estimator.max_rto@ as int),
    )
}

/// What a measurement makes of an estimator.
pub open spec fn measured(
    before: RttEstimator,
    after: RttEstimator,
    sample: nat,
    ack_delay: nat,
) -> bool {
    let measure = greater(sample - ack_delay, 0) as nat;
    &&& after.same_bounds(before)
    &&& after.srtt matches Some(srtt) && match before.srtt {
        None => srtt@ == measure && after.rttvar@ == measure / 2,
        Some(old_srtt) => srtt@ == (old_srtt@ * 7 + measure) / 8 && after.rttvar@ == (
        before.rttvar@ * 3 + distance(old_srtt@, measure)) / 4,
    }
    &&& after.rto@ == timeout_for(after.srtt->0@, after.rttvar@, after)
}

/// What a loss does: the timeout doubles, up to its bound.
pub open spec fn backed_off(before: RttEstimator, after: RttEstimator) -> bool {
    &&& after.same_bounds(before)
    &&& after.srtt == before.srtt
    &&& after.rttvar == before.rttvar
    &&& after.rto@ == lesser((before.rto@ * 2) as int, before.max_rto@ as int)
}

/// What undoing that does: the timeout is what the measurements say, or the first
/// one if there are none.
pub open spec fn backoff_undone(before: RttEstimator, after: RttEstimator) -> bool {
    &&& after.same_bounds(before)
    &&& after.srtt == before.srtt
    &&& after.rttvar == before.rttvar
    &&& after.rto@ == match before.srtt {
        None => before.initial_rto@ as int,
        Some(srtt) => timeout_for(srtt@, before.rttvar@, before),
    }
}

impl RttEstimator {
    /// The bounds are in order.
    pub open spec fn well_formed(self) -> bool {
        self.min_rto@ <= self.max_rto@
    }

    /// Whether no more than `limit` was ever measured.
    pub open spec fn measured_within(self, limit: nat) -> bool {
        &&& self.rttvar@ <= limit
        &&& self.srtt matches Some(srtt) ==> srtt@ <= limit
    }

    /// The parts that are set once.
    pub open spec fn same_bounds(self, other: Self) -> bool {
        &&& self.initial_rto == other.initial_rto
        &&& self.min_rto == other.min_rto
        &&& self.max_rto == other.max_rto
        &&& self.granularity == other.granularity
    }

    /// An estimator before any measurement.
    pub fn new(initial_rto: Duration, min_rto: Duration, max_rto: Duration, granularity: Duration)
        -> (estimator: Self)
        ensures
            estimator.srtt is None,
            estimator.rttvar@ == 0,
            estimator.rto == initial_rto,
            estimator.initial_rto == initial_rto,
            estimator.min_rto == min_rto,
            estimator.max_rto == max_rto,
            estimator.granularity == granularity,
    {
        RttEstimator {
            srtt: None,
            rttvar: Duration::zero(),
            rto: initial_rto,
            initial_rto,
            min_rto,
            max_rto,
            granularity,
        }
    }

    /// The current timeout.
    pub fn rto(self) -> (rto: Duration)
        ensures
            rto == self.rto,
    {
        self.rto
    }

    /// The smoothed round-trip time.
    pub fn srtt(self) -> (srtt: Option<Duration>)
        ensures
            srtt == self.srtt,
    {
        self.srtt
    }

    /// Takes a measurement, less the delay of the acknowledgement. The sums must
    /// not pass the longest duration.
    pub fn on_ack(&mut self, sample: Duration, ack_delay: Duration)
        requires
            old(self).well_formed(),
            old(self).srtt matches Some(srtt) ==> {
                let measure = greater(sample@ - ack_delay@, 0) as nat;
                &&& srtt@ * 7 + measure <= MAX_NANOS
                &&& old(self).rttvar@ * 3 + distance(srtt@, measure) <= MAX_NANOS
            },
        ensures
            final(self).well_formed(),
            measured(*old(self), *final(self), sample@, ack_delay@),
    {
        let measure: Duration = sample.saturating_sub(ack_delay);
        let nanos: u128 = measure.as_nanos();
        match self.srtt {
            None => {
                self.srtt = Some(measure);
                self.rttvar = measure.fraction(1, 0, 2);
            },
            Some(srtt) => {
                let difference: Duration = srtt.abs_diff(measure);
                self.rttvar = self.rttvar.fraction(3, difference.as_nanos(), 4);
                self.srtt = Some(srtt.fraction(7, nanos, 8));
            },
        }
        self.recalculate();
    }

    /// Doubles the timeout after a loss.
    pub fn on_timeout(&mut self)
        ensures
            backed_off(*old(self), *final(self)),
    {
        let doubled: u128 = self.rto.as_nanos() * 2;
        if doubled < self.max_rto.as_nanos() {
            self.rto = Duration::checked_from_nanos(doubled).unwrap();
        } else {
            self.rto = self.max_rto;
        }
    }

    /// Undoes the doubling: the timeout is what the measurements say.
    pub fn reset_backoff(&mut self)
        requires
            old(self).well_formed(),
        ensures
            backoff_undone(*old(self), *final(self)),
    {
        if self.srtt.is_none() {
            self.rto = self.initial_rto;
        } else {
            self.recalculate();
        }
    }

    /// Derives the timeout from the measurements.
    fn recalculate(&mut self)
        requires
            old(self).well_formed(),
            old(self).srtt is Some,
        ensures
            *final(self) == (RttEstimator { rto: final(self).rto, ..*old(self) }),
            final(self).rto@ == timeout_for(old(self).srtt->0@, old(self).rttvar@, *old(self)),
    {
        let srtt: u128 = self.srtt.unwrap().as_nanos();
        let spread: u128 = self.rttvar.as_nanos() * 4;
        let granularity: u128 = self.granularity.as_nanos();
        let variance: u128 = if spread < granularity {
            granularity
        } else {
            spread
        };
        let timeout: u128 = srtt + variance;
        self.rto = if timeout < self.min_rto.as_nanos() {
            self.min_rto
        } else if timeout > self.max_rto.as_nanos() {
            self.max_rto
        } else {
            Duration::checked_from_nanos(timeout).unwrap()
        };
    }
}

} // verus!
