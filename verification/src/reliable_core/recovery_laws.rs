//! Which packets count as lost, and what that does to the window.

use vstd::prelude::*;

use crate::reliable_core::delivery_laws::{lemma_acks_take_away, lemma_losses_only_take, run_of};
use crate::reliable_core::error::CoreError;
use crate::reliable_core::recovery::SentView;
use crate::reliable_core::transition::{ack_applied, ack_done, ConnectionView};
use crate::reliable_core::transport::{
    ack_run, higher_acks, is_lost, loss_run, rising_numbers, sampled, AckRun,
};
use crate::wire::{ranges_hold, AckRange, AckView};

verus! {

/// An acknowledgement names a packet: its number lies between the ends of a range.
pub open spec fn names(ack: AckView, number: u64) -> bool {
    exists|i: int|
        0 <= i < ack.ranges.len() && (#[trigger] ack.ranges[i]).start.value <= number
            && number <= ack.ranges[i].end.value
}

/// The packets on their way that were sent after this one and are acknowledged.
pub open spec fn passed_by(before: ConnectionView, ack: AckView, number: u64) -> Set<u64> {
    Set::new(
        |other: u64|
            before.transport.sent.contains_key(other) && number < other && names(ack, other),
    )
}

/// Those of the first `count` numbers that are above this one and acknowledged.
spec fn passed_among(
    numbers: Seq<u64>,
    ranges: Seq<AckRange>,
    number: u64,
    count: int,
) -> Set<u64> {
    Set::new(
        |other: u64|
            number < other && ranges_hold(ranges, other) && exists|i: int|
                0 <= i < count && #[trigger] numbers[i] == other,
    )
}

proof fn lemma_passed_are_counted(
    numbers: Seq<u64>,
    ranges: Seq<AckRange>,
    number: u64,
    count: int,
)
    requires
        0 <= count <= numbers.len(),
        forall|i: int, j: int| 0 <= i < j < numbers.len() ==> numbers[i] < numbers[j],
    ensures
        passed_among(numbers, ranges, number, count).finite(),
        passed_among(numbers, ranges, number, count).len() == higher_acks(
            numbers,
            ranges,
            number,
            count,
        ),
    decreases count,
{
    let now = passed_among(numbers, ranges, number, count);
    if count == 0 {
        assert(now =~= Set::empty());
    } else {
        let last = numbers[count - 1];
        let before = passed_among(numbers, ranges, number, count - 1);
        lemma_passed_are_counted(numbers, ranges, number, count - 1);
        if last > number && ranges_hold(ranges, last) {
            assert(now =~= before.insert(last)) by {
                assert forall|other: u64| now.contains(other) implies before.insert(
                    last,
                ).contains(other) by {
                    let i = choose|i: int| 0 <= i < count && #[trigger] numbers[i] == other;
                    assert(numbers[i] == other);
                }
                assert(now.contains(last)) by {
                    assert(numbers[count - 1] == last);
                }
            }
            assert(!before.contains(last));
        } else {
            assert(now =~= before) by {
                assert forall|other: u64| now.contains(other) implies before.contains(other) by {
                    let i = choose|i: int| 0 <= i < count && #[trigger] numbers[i] == other;
                    assert(numbers[i] == other);
                    assert(i != count - 1);
                }
            }
        }
    }
}

/// What the losses of a run take away: up to a failure those that count as lost, and
/// nothing else.
proof fn lemma_losses_take(
    run: AckRun,
    numbers: Seq<u64>,
    ranges: Seq<AckRange>,
    threshold: u64,
    most: u32,
    count: int,
    at: int,
)
    requires
        0 <= count <= numbers.len(),
        0 <= at < numbers.len(),
        forall|i: int, j: int| 0 <= i < j < numbers.len() ==> numbers[i] < numbers[j],
    ensures
        ({
            let after = loss_run(run, numbers, ranges, threshold, most, count);
            let number = numbers[at];
            let lost = is_lost(numbers, ranges, number, threshold);
            &&& run.sent.contains_key(number) && !(lost && at < count)
                ==> after.sent.contains_key(number)
            &&& after.failed is None && lost && at < count ==> !after.sent.contains_key(number)
        }),
    decreases count,
{
    if count > 0 {
        lemma_losses_take(run, numbers, ranges, threshold, most, count - 1, at);
    }
}

/// A packet on its way counts as lost exactly if it is not acknowledged while at
/// least as many packets that were sent after it are as the threshold says. Unless
/// it is lost or acknowledged it waits on, unchanged; and one that was sent after
/// every acknowledged one is never lost.
pub proof fn law_lost_if_and_only_if_passed_often_enough(
    before: ConnectionView,
    ack: AckView,
    after: ConnectionView,
    result: Result<(), CoreError>,
    number: u64,
)
    requires
        ack_done(before, ack, Ok(()), after, result),
        ack.largest < before.transport.next_packet_number,
        before.transport.sent.contains_key(number),
    ensures
        passed_by(before, ack, number).finite(),
        names(ack, number) ==> !after.transport.sent.contains_key(number),
        !names(ack, number) && passed_by(before, ack, number).len()
            < before.config.fast_loss_threshold ==> after.transport.sent.contains_key(number)
            && after.transport.sent[number] == before.transport.sent[number],
        result is Ok && passed_by(before, ack, number).len() >= before.config.fast_loss_threshold
            ==> !after.transport.sent.contains_key(number),
        before.config.fast_loss_threshold > 0 && !names(ack, number) && (forall|other: u64|
            number < other && before.transport.sent.contains_key(other) ==> !#[trigger] names(
                ack,
                other,
            )) ==> after.transport.sent.contains_key(number),
{
    let numbers = choose|numbers: Seq<u64>| #[trigger]
        rising_numbers(numbers, before.transport.sent) && ack_applied(
            before,
            ack,
            numbers,
            after,
            result,
        );
    let run = run_of(before);
    let count = numbers.len() as int;
    let threshold = before.config.fast_loss_threshold;
    let most = before.config.max_retransmissions;
    assert(numbers.contains(number));
    let at = choose|i: int| 0 <= i < numbers.len() && numbers[i] == number;
    let acked = ack_run(run, numbers, ack.ranges, count);
    let left = loss_run(acked, numbers, ack.ranges, threshold, most, count);
    lemma_acks_take_away(run, numbers, ack.ranges, count, at);
    lemma_losses_take(acked, numbers, ack.ranges, threshold, most, count, at);
    lemma_losses_only_take(acked, numbers, ack.ranges, threshold, most, count);
    assert(after.transport.sent == left.sent);
    assert forall|other: u64| #[trigger] names(ack, other) <==> ranges_hold(ack.ranges, other) by {
        if names(ack, other) {
            let i = choose|i: int|
                0 <= i < ack.ranges.len() && (#[trigger] ack.ranges[i]).start.value <= other
                    && other <= ack.ranges[i].end.value;
            assert(ack.ranges[i].holds(other));
        }
        if ranges_hold(ack.ranges, other) {
            let i = choose|i: int| 0 <= i < ack.ranges.len() && (#[trigger] ack.ranges[i]).holds(other);
            assert(ack.ranges[i].start.value <= other);
        }
    }
    lemma_passed_are_counted(numbers, ack.ranges, number, count);
    let passed = passed_by(before, ack, number);
    assert(passed =~= passed_among(numbers, ack.ranges, number, count)) by {
        assert forall|other: u64| passed.contains(other) <==> passed_among(
            numbers,
            ack.ranges,
            number,
            count,
        ).contains(other) by {
            assert(numbers.contains(other) <==> before.transport.sent.contains_key(other));
        }
    }
    if forall|other: u64|
        number < other && before.transport.sent.contains_key(other) ==> !#[trigger] names(
            ack,
            other,
        ) {
        assert(passed =~= Set::empty());
    }
}

/// Length of those of the first `count` packets that are no longer on their way.
pub open spec fn gone_length(
    sent: Map<u64, SentView>,
    left: Map<u64, SentView>,
    numbers: Seq<u64>,
    count: int,
) -> int
    decreases count,
{
    if count <= 0 {
        0
    } else {
        gone_length(sent, left, numbers, count - 1) + if left.contains_key(numbers[count - 1]) {
            0int
        } else {
            sent[numbers[count - 1]].encoded_len as int
        }
    }
}

/// A packet that leaves adds its length.
proof fn lemma_gone_length(
    sent: Map<u64, SentView>,
    left: Map<u64, SentView>,
    numbers: Seq<u64>,
    count: int,
    at: int,
)
    requires
        0 <= count <= numbers.len(),
        0 <= at < numbers.len(),
        forall|i: int, j: int| 0 <= i < j < numbers.len() ==> numbers[i] < numbers[j],
        left.contains_key(numbers[at]),
    ensures
        gone_length(sent, left.remove(numbers[at]), numbers, count) == gone_length(
            sent,
            left,
            numbers,
            count,
        ) + if at < count {
            sent[numbers[at]].encoded_len as int
        } else {
            0int
        },
    decreases count,
{
    if count > 0 {
        lemma_gone_length(sent, left, numbers, count - 1, at);
        if at < count - 1 {
            assert(numbers[at] < numbers[count - 1]);
        } else if at > count - 1 {
            assert(numbers[count - 1] < numbers[at]);
        }
    }
}

/// Whether a run holds the packets it began with, but for some that are gone, and has
/// taken their length from the flight.
spec fn accounts(run: AckRun, first: AckRun, numbers: Seq<u64>) -> bool {
    let gone = gone_length(first.sent, run.sent, numbers, numbers.len() as int);
    &&& forall|number: u64| #[trigger]
        run.sent.contains_key(number) ==> first.sent.contains_key(number) && run.sent[number]
            == first.sent[number]
    &&& run.congestion.bytes_in_flight == if gone <= first.congestion.bytes_in_flight {
        first.congestion.bytes_in_flight - gone
    } else {
        0
    }
}

proof fn lemma_nothing_is_gone(first: AckRun, numbers: Seq<u64>, count: int)
    requires
        0 <= count <= numbers.len(),
        forall|i: int| 0 <= i < numbers.len() ==> first.sent.contains_key(#[trigger] numbers[i]),
    ensures
        gone_length(first.sent, first.sent, numbers, count) == 0,
    decreases count,
{
    if count > 0 {
        lemma_nothing_is_gone(first, numbers, count - 1);
    }
}

proof fn lemma_acks_account(
    first: AckRun,
    numbers: Seq<u64>,
    ranges: Seq<AckRange>,
    count: int,
)
    requires
        0 <= count <= numbers.len(),
        forall|i: int, j: int| 0 <= i < j < numbers.len() ==> numbers[i] < numbers[j],
        forall|i: int| 0 <= i < numbers.len() ==> first.sent.contains_key(#[trigger] numbers[i]),
    ensures
        accounts(ack_run(first, numbers, ranges, count), first, numbers),
        forall|i: int|
            count <= i < numbers.len() ==> ack_run(
                first,
                numbers,
                ranges,
                count,
            ).sent.contains_key(#[trigger] numbers[i]),
        forall|i: int|
            0 <= i < numbers.len() && !ranges_hold(ranges, numbers[i]) ==> ack_run(
                first,
                numbers,
                ranges,
                count,
            ).sent.contains_key(#[trigger] numbers[i]),
    decreases count,
{
    if count == 0 {
        lemma_nothing_is_gone(first, numbers, numbers.len() as int);
    } else {
        lemma_acks_account(first, numbers, ranges, count - 1);
        let run = ack_run(first, numbers, ranges, count - 1);
        let number = numbers[count - 1];
        assert(run.sent.contains_key(number));
        if ranges_hold(ranges, number) {
            lemma_gone_length(first.sent, run.sent, numbers, numbers.len() as int, count - 1);
        }
        assert forall|i: int| count <= i < numbers.len() implies ack_run(
            first,
            numbers,
            ranges,
            count,
        ).sent.contains_key(#[trigger] numbers[i]) by {
            assert(numbers[count - 1] < numbers[i]);
        }
    }
}

proof fn lemma_losses_account(
    first: AckRun,
    acked: AckRun,
    numbers: Seq<u64>,
    ranges: Seq<AckRange>,
    threshold: u64,
    most: u32,
    count: int,
)
    requires
        0 <= count <= numbers.len(),
        forall|i: int, j: int| 0 <= i < j < numbers.len() ==> numbers[i] < numbers[j],
        accounts(acked, first, numbers),
        forall|i: int|
            0 <= i < numbers.len() && !ranges_hold(ranges, numbers[i]) ==> acked.sent.contains_key(
                #[trigger] numbers[i],
            ),
    ensures
        accounts(loss_run(acked, numbers, ranges, threshold, most, count), first, numbers),
        forall|i: int|
            count <= i < numbers.len() && !ranges_hold(ranges, numbers[i]) ==> loss_run(
                acked,
                numbers,
                ranges,
                threshold,
                most,
                count,
            ).sent.contains_key(#[trigger] numbers[i]),
    decreases count,
{
    if count > 0 {
        lemma_losses_account(first, acked, numbers, ranges, threshold, most, count - 1);
        let run = loss_run(acked, numbers, ranges, threshold, most, count - 1);
        let number = numbers[count - 1];
        if is_lost(numbers, ranges, number, threshold) && run.failed is None {
            assert(run.sent.contains_key(number));
            lemma_gone_length(first.sent, run.sent, numbers, numbers.len() as int, count - 1);
        }
        assert forall|i: int|
            count <= i < numbers.len() && !ranges_hold(ranges, numbers[i]) implies loss_run(
            acked,
            numbers,
            ranges,
            threshold,
            most,
            count,
        ).sent.contains_key(#[trigger] numbers[i]) by {
            assert(numbers[count - 1] < numbers[i]);
        }
    }
}

/// What an acknowledgement takes from the flight is the length of the packets that
/// are no longer on their way after it, acknowledged or lost, and nothing else.
pub proof fn law_flight_is_what_is_on_its_way(
    before: ConnectionView,
    ack: AckView,
    numbers: Seq<u64>,
    after: ConnectionView,
    result: Result<(), CoreError>,
)
    requires
        rising_numbers(numbers, before.transport.sent),
        ack_applied(before, ack, numbers, after, result),
    ensures
        ({
            let gone = gone_length(
                before.transport.sent,
                after.transport.sent,
                numbers,
                numbers.len() as int,
            );
            gone <= before.transport.congestion.bytes_in_flight
                ==> after.transport.congestion.bytes_in_flight
                == before.transport.congestion.bytes_in_flight - gone
        }),
        forall|number: u64| #[trigger]
            after.transport.sent.contains_key(number) ==> before.transport.sent.contains_key(number)
                && after.transport.sent[number] == before.transport.sent[number],
{
    let first = run_of(before);
    assert forall|i: int| 0 <= i < numbers.len() implies first.sent.contains_key(
        #[trigger] numbers[i],
    ) by {
        assert(numbers.contains(numbers[i]));
    }
    let count = numbers.len() as int;
    lemma_acks_account(first, numbers, ack.ranges, count);
    lemma_losses_account(
        first,
        ack_run(first, numbers, ack.ranges, count),
        numbers,
        ack.ranges,
        before.config.fast_loss_threshold,
        before.config.max_retransmissions,
        count,
    );
}

/// The packet that is measured among the first `count`.
proof fn lemma_sampled(
    sent: Map<u64, SentView>,
    numbers: Seq<u64>,
    ranges: Seq<AckRange>,
    count: int,
)
    requires
        0 <= count <= numbers.len(),
        forall|i: int, j: int| 0 <= i < j < numbers.len() ==> numbers[i] < numbers[j],
    ensures
        match sampled(sent, numbers, ranges, count) {
            Some(number) => {
                &&& exists|i: int| 0 <= i < count && #[trigger] numbers[i] == number
                &&& ranges_hold(ranges, number)
                &&& sent[number].retransmit_count == 0
                &&& forall|i: int|
                    0 <= i < count && ranges_hold(ranges, #[trigger] numbers[i])
                        && sent[numbers[i]].retransmit_count == 0 ==> number <= numbers[i]
            },
            None => forall|i: int|
                0 <= i < count ==> !(ranges_hold(ranges, #[trigger] numbers[i])
                    && sent[numbers[i]].retransmit_count == 0),
        },
    decreases count,
{
    if count > 0 {
        lemma_sampled(sent, numbers, ranges, count - 1);
        if sampled(sent, numbers, ranges, count - 1) is Some {
            let number = sampled(sent, numbers, ranges, count - 1)->0;
            let i = choose|i: int| 0 <= i < count - 1 && #[trigger] numbers[i] == number;
            assert(numbers[i] < numbers[count - 1]);
        } else {
            assert(numbers[count - 1] == numbers[count - 1]);
            assert forall|i: int|
                0 <= i < count && ranges_hold(ranges, #[trigger] numbers[i])
                    && sent[numbers[i]].retransmit_count == 0 implies numbers[count - 1]
                <= numbers[i] by {
            }
        }
    }
}

/// The path is measured by the oldest packet that is acknowledged and was sent only
/// once: by the time since it left, without the delay that the other side tells of.
/// Packets that were sent again tell nothing.
pub proof fn law_only_packets_sent_once_are_measured(
    before: ConnectionView,
    ack: AckView,
    after: ConnectionView,
    result: Result<(), CoreError>,
    number: u64,
)
    requires
        ack_done(before, ack, Ok(()), after, result),
        ack.largest < before.transport.next_packet_number,
    ensures
        ({
            let first = before.transport.sent.contains_key(number) && names(ack, number)
                && before.transport.sent[number].retransmit_count == 0 && forall|other: u64|
                other < number && #[trigger] before.transport.sent.contains_key(other) && names(
                    ack,
                    other,
                ) ==> before.transport.sent[other].retransmit_count > 0;
            let since = before.now@ - before.transport.sent[number].sent_at@ - ack.ack_delay;
            first && since >= 0 ==> {
                &&& after.transport.rtt.srtt is Some
                &&& before.transport.rtt.srtt is None ==> after.transport.rtt.srtt->0@ == since
                &&& before.transport.rtt.srtt is Some ==> {
                    let was = before.transport.rtt.srtt->0@;
                    since - was - 7 <= 8 * (after.transport.rtt.srtt->0@ - was) <= since - was
                }
            }
        }),
        (forall|other: u64| #[trigger]
            before.transport.sent.contains_key(other) && names(ack, other)
                ==> before.transport.sent[other].retransmit_count > 0) ==> after.transport.rtt
            == before.transport.rtt,
{
    let sent = before.transport.sent;
    let numbers = choose|numbers: Seq<u64>| #[trigger]
        rising_numbers(numbers, sent) && ack_applied(before, ack, numbers, after, result);
    let count = numbers.len() as int;
    lemma_sampled(sent, numbers, ack.ranges, count);
    assert forall|other: u64| names(ack, other) == #[trigger] ranges_hold(ack.ranges, other) by {
        if names(ack, other) {
            let i = choose|i: int|
                0 <= i < ack.ranges.len() && (#[trigger] ack.ranges[i]).start.value <= other
                    && other <= ack.ranges[i].end.value;
            assert(ack.ranges[i].holds(other));
        }
    }
    let measured_one = sampled(sent, numbers, ack.ranges, count);
    assert forall|other: u64| #[trigger] sent.contains_key(other) implies exists|i: int|
        0 <= i < count && #[trigger] numbers[i] == other by {
        assert(numbers.contains(other));
    }
    if measured_one is Some {
        let i = choose|i: int| 0 <= i < count && #[trigger] numbers[i] == measured_one->0;
        assert(numbers.contains(numbers[i]));
        assert(sent.contains_key(measured_one->0));
        assert(names(ack, measured_one->0));
    }
    if sent.contains_key(number) && names(ack, number) && sent[number].retransmit_count == 0 {
        let i = choose|i: int| 0 <= i < count && #[trigger] numbers[i] == number;
        assert(ranges_hold(ack.ranges, numbers[i]));
    }
}

} // verus!
