//! The packets that have been received, as ranges of numbers.

use vstd::prelude::*;

use crate::duration::Duration;
use crate::reliable_core::congestion::{greater, lesser};
use crate::wire::{copy_ranges, ranges_hold, AckFrame, AckRange, PacketNumber};

verus! {

/// The ranges are in falling order, and there is a gap between any two.
pub open spec fn ranges_canonical(ranges: Seq<AckRange>) -> bool {
    &&& forall|i: int|
        0 <= i < ranges.len() ==> (#[trigger] ranges[i]).start.value <= ranges[i].end.value
    &&& forall|i: int, j: int|
        0 <= i < j < ranges.len() ==> (#[trigger] ranges[i]).start.value > (
        #[trigger] ranges[j]).end.value + 1
}

/// The first ranges, at most `count` of them.
pub open spec fn first_ranges(ranges: Seq<AckRange>, count: nat) -> Seq<AckRange> {
    if ranges.len() <= count {
        ranges
    } else {
        ranges.subrange(0, count as int)
    }
}

/// `wider` holds what `ranges` hold and one packet more.
pub open spec fn ranges_with(ranges: Seq<AckRange>, wider: Seq<AckRange>, number: u64) -> bool {
    &&& ranges_canonical(wider)
    &&& forall|other: u64| #[trigger]
        ranges_hold(wider, other) <==> ranges_hold(ranges, other) || other == number
}

/// The highest packets that have been received.
#[derive(Debug)]
pub struct ReceivedPackets {
    ranges: Vec<AckRange>,
    largest_received_at: Option<Duration>,
    max_ranges: usize,
}

impl ReceivedPackets {
    /// The ranges of packets, from the highest.
    pub closed spec fn held(&self) -> Seq<AckRange> {
        self.ranges@
    }

    /// When the highest packet came.
    pub closed spec fn largest_at(&self) -> Option<Duration> {
        self.largest_received_at
    }

    /// Largest number of ranges kept.
    pub closed spec fn limit(&self) -> usize {
        self.max_ranges
    }

    /// The ranges are in order.
    pub open spec fn well_formed(&self) -> bool {
        &&& ranges_canonical(self.held())
        &&& self.held().len() <= self.limit()
    }

    /// No packet received, at most `max_ranges` ranges kept.
    pub fn new(max_ranges: usize) -> (received: Self)
        ensures
            received.well_formed(),
            received.held() == Seq::<AckRange>::empty(),
            received.largest_at() is None,
            received.limit() == max_ranges,
    {
        ReceivedPackets { ranges: Vec::new(), largest_received_at: None, max_ranges }
    }

    /// Adds a packet; `false` if it is held already. The lowest ranges are
    /// forgotten when there are too many.
    pub fn record(&mut self, packet_number: PacketNumber, now: Duration) -> (added: bool)
        requires
            old(self).well_formed(),
        ensures
            final(self).well_formed(),
            final(self).limit() == old(self).limit(),
            added <==> !ranges_hold(old(self).held(), packet_number.value),
            !added ==> final(self).held() == old(self).held() && final(self).largest_at() == old(
                self,
            ).largest_at(),
            added ==> exists|wider: Seq<AckRange>| #[trigger]
                ranges_with(old(self).held(), wider, packet_number.value) && final(self).held()
                    == first_ranges(wider, old(self).limit() as nat),
            added ==> final(self).largest_at() == (if old(self).held().len() == 0 || old(
                self,
            ).held()[0].end.value < packet_number.value {
                Some(now)
            } else {
                old(self).largest_at()
            }),
    {
        let number: u64 = packet_number.value;
        let ghost before = self.ranges@;
        let mut at: usize = 0;
        while at < self.ranges.len() && self.ranges[at].end.value >= number
            invariant
                at <= self.ranges@.len(),
                self.ranges@ == before,
                before == old(self).ranges@,
                before.len() <= self.max_ranges,
                number == packet_number.value,
                self.max_ranges == old(self).max_ranges,
                self.largest_received_at == old(self).largest_received_at,
                ranges_canonical(before),
                forall|i: int| 0 <= i < at ==> (#[trigger] before[i]).start.value > number,
            decreases self.ranges@.len() - at,
        {
            if self.ranges[at].start.value <= number {
                assert(before[at as int].holds(number));
                return false;
            }
            at = at + 1;
        }
        assert(!ranges_hold(before, number)) by {
            assert forall|i: int| 0 <= i < before.len() implies !(#[trigger] before[i]).holds(
                number,
            ) by {
                if i > at {
                    assert(before[at as int].start.value > before[i].end.value + 1);
                }
            }
        }
        let joins_above: bool = at > 0 && self.ranges[at - 1].start.value == number + 1;
        let joins_below: bool = at < self.ranges.len() && self.ranges[at].end.value + 1 == number;
        if joins_above && joins_below {
            let above = self.ranges[at - 1];
            let below = self.ranges[at];
            self.ranges.set(at - 1, AckRange { start: below.start, end: above.end });
            self.ranges.remove(at);
            proof {
                let after = self.ranges@;
                assert forall|i: int| 0 <= i < after.len() implies after[i] == (if i == at - 1 {
                    AckRange { start: before[at as int].start, end: before[at - 1].end }
                } else if i < at {
                    before[i]
                } else {
                    before[i + 1]
                }) by {}
                assert forall|other: u64| #[trigger] ranges_hold(after, other) <==> ranges_hold(
                    before,
                    other,
                ) || other == number by {
                    if ranges_hold(after, other) {
                        let i = choose|i: int|
                            0 <= i < after.len() && (#[trigger] after[i]).holds(other);
                        if i == at - 1 {
                            if other > number {
                                assert(before[at - 1].holds(other));
                            } else if other < number {
                                assert(before[at as int].holds(other));
                            }
                        } else if i < at {
                            assert(before[i].holds(other));
                        } else {
                            assert(before[i + 1].holds(other));
                        }
                    }
                    if ranges_hold(before, other) {
                        let i = choose|i: int|
                            0 <= i < before.len() && (#[trigger] before[i]).holds(other);
                        if i < at {
                            assert(after[i].holds(other));
                        } else {
                            assert(after[i - 1].holds(other));
                        }
                    }
                    if other == number {
                        assert(after[at - 1].holds(other));
                    }
                }
            }
        } else if joins_above {
            let above = self.ranges[at - 1];
            self.ranges.set(at - 1, AckRange { start: packet_number, end: above.end });
            proof {
                lemma_widened(before, self.ranges@, at - 1, number);
            }
        } else if joins_below {
            let below = self.ranges[at];
            self.ranges.set(at, AckRange { start: below.start, end: packet_number });
            proof {
                lemma_widened(before, self.ranges@, at as int, number);
            }
        } else {
            self.ranges.insert(at, AckRange { start: packet_number, end: packet_number });
            proof {
                let after = self.ranges@;
                assert forall|i: int| 0 <= i < after.len() implies after[i] == (if i == at {
                    AckRange { start: packet_number, end: packet_number }
                } else if i < at {
                    before[i]
                } else {
                    before[i - 1]
                }) by {}
                assert(ranges_canonical(after)) by {
                    assert forall|i: int, j: int| 0 <= i < j < after.len() implies (
                    #[trigger] after[i]).start.value > (#[trigger] after[j]).end.value + 1 by {
                        if i < at && j == at {
                            if i < at - 1 {
                                assert(before[i].start.value > before[at - 1].end.value + 1);
                            }
                        }
                        if i == at && j > at {
                            if j > at + 1 {
                                assert(before[at as int].start.value > before[j - 1].end.value + 1);
                            }
                        }
                        if i > at {
                            assert(before[i - 1].start.value > before[j - 1].end.value + 1);
                        }
                        if i < at && j > at {
                            assert(before[i].start.value > before[j - 1].end.value + 1);
                        }
                    }
                }
                assert forall|other: u64| #[trigger] ranges_hold(after, other) <==> ranges_hold(
                    before,
                    other,
                ) || other == number by {
                    if ranges_hold(after, other) {
                        let i = choose|i: int|
                            0 <= i < after.len() && (#[trigger] after[i]).holds(other);
                        if i < at {
                            assert(before[i].holds(other));
                        } else if i > at {
                            assert(before[i - 1].holds(other));
                        }
                    }
                    if ranges_hold(before, other) {
                        let i = choose|i: int|
                            0 <= i < before.len() && (#[trigger] before[i]).holds(other);
                        if i < at {
                            assert(after[i].holds(other));
                        } else {
                            assert(after[i + 1].holds(other));
                        }
                    }
                    if other == number {
                        assert(after[at as int].holds(other));
                    }
                }
            }
        }
        assert(ranges_with(before, self.ranges@, number));
        let ghost wider = self.ranges@;
        if self.ranges[0].end.value == number {
            self.largest_received_at = Some(now);
        }
        if self.ranges.len() > self.max_ranges {
            self.ranges.truncate(self.max_ranges);
        }
        assert(self.ranges@ == first_ranges(wider, self.max_ranges as nat));
        true
    }

    /// The highest packet.
    pub fn largest(&self) -> (largest: Option<PacketNumber>)
        ensures
            largest == (if self.held().len() == 0 {
                None
            } else {
                Some(self.held()[0].end)
            }),
    {
        if self.ranges.len() == 0 {
            None
        } else {
            Some(self.ranges[0].end)
        }
    }

    /// The acknowledgement of what is held, if anything is. Its delay is the age
    /// of the highest packet, at most `ack_delay`.
    pub fn frame(&self, now: Duration, ack_delay: Duration) -> (frame: Option<AckFrame>)
        ensures
            frame is Some <==> self.held().len() > 0,
            frame matches Some(ack) ==> {
                &&& ack.largest == self.held()[0].end
                &&& ack.ranges@ == self.held()
                &&& ack.ack_delay@ == match self.largest_at() {
                    None => 0,
                    Some(at) => lesser(greater(now@ - at@, 0), ack_delay@ as int),
                }
            },
    {
        let largest: PacketNumber = match self.largest() {
            Some(largest) => largest,
            None => {
                return None;
            },
        };
        let delay: Duration = match self.largest_received_at {
            Some(received_at) => {
                let age = now.saturating_sub(received_at);
                if age.as_nanos() <= ack_delay.as_nanos() {
                    age
                } else {
                    ack_delay
                }
            },
            None => Duration::zero(),
        };
        Some(AckFrame { largest, ack_delay: delay, ranges: copy_ranges(&self.ranges) })
    }

    /// The ranges of packets, from the highest.
    pub fn ranges(&self) -> (ranges: &Vec<AckRange>)
        ensures
            ranges@ == self.held(),
    {
        &self.ranges
    }
}

/// One end of one range moved by one.
proof fn lemma_widened(before: Seq<AckRange>, after: Seq<AckRange>, at: int, number: u64)
    requires
        ranges_canonical(before),
        0 <= at < before.len(),
        after == before.update(at, after[at]),
        (after[at].start.value == number && number + 1 == before[at].start.value && after[at].end
            == before[at].end && (at + 1 < before.len() ==> before[at + 1].end.value + 1 < number))
            || (after[at].end.value == number && before[at].end.value + 1 == number
            && after[at].start == before[at].start && (at > 0 ==> before[at - 1].start.value
            > number + 1)),
    ensures
        ranges_with(before, after, number),
{
    assert forall|i: int, j: int| 0 <= i < j < after.len() implies (#[trigger] after[i]).start.value
        > (#[trigger] after[j]).end.value + 1 by {
        assert(before[i].start.value > before[j].end.value + 1);
        if i == at && j > at + 1 {
            assert(before[at + 1].start.value > before[j].end.value + 1);
        }
        if j == at && i < at - 1 {
            assert(before[i].start.value > before[at - 1].end.value + 1);
        }
    }
    assert forall|other: u64| #[trigger] ranges_hold(after, other) <==> ranges_hold(before, other)
        || other == number by {
        if ranges_hold(after, other) {
            let i = choose|i: int| 0 <= i < after.len() && (#[trigger] after[i]).holds(other);
            assert(before[i].holds(other) || other == number);
        }
        if ranges_hold(before, other) {
            let i = choose|i: int| 0 <= i < before.len() && (#[trigger] before[i]).holds(other);
            assert(after[i].holds(other));
        }
        if other == number {
            assert(after[at].holds(other));
        }
    }
}

} // verus!
