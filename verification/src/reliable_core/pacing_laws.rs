//! What the windows, the timeout and the list of received packets come to.

use vstd::prelude::*;

use crate::duration::{Duration, MAX_NANOS};
use crate::reliable_core::ack::{first_ranges, ranges_with, ReceivedPackets};
use crate::reliable_core::congestion::CongestionController;
use crate::reliable_core::error::CoreError;
use crate::reliable_core::flow_control::{ReceiveFlowControl, SendFlowControl};
use crate::reliable_core::rtt::RttEstimator;
use crate::wire::{ranges_hold, AckFrame, AckRange, PacketNumber, StreamId};

verus! {

/// What was sent is in flight until it is acknowledged or lost, and the window is
/// not changed by sending.
pub proof fn law_acknowledged_bytes_leave_the_flight(
    sending: &mut CongestionController,
    acked: &mut CongestionController,
    bytes: usize,
)
    requires
        old(sending).well_formed(),
        old(sending).bytes_in_flight + bytes <= u64::MAX,
        call_ensures(CongestionController::on_sent, (sending, bytes), ()),
        *old(acked) == *final(sending),
        call_ensures(CongestionController::on_acked, (acked, bytes), ()),
    ensures
        final(sending).bytes_in_flight == old(sending).bytes_in_flight + bytes,
        final(sending).cwnd == old(sending).cwnd,
        final(sending).ssthresh == old(sending).ssthresh,
        final(acked).bytes_in_flight == old(sending).bytes_in_flight,
        final(acked).ssthresh == old(sending).ssthresh,
{
}

/// What was lost leaves the flight too, and the window halves, down to its least.
pub proof fn law_loss_halves_the_window(
    sending: &mut CongestionController,
    lost: &mut CongestionController,
    bytes: usize,
)
    requires
        old(sending).well_formed(),
        old(sending).bytes_in_flight + bytes <= u64::MAX,
        call_ensures(CongestionController::on_sent, (sending, bytes), ()),
        *old(lost) == *final(sending),
        call_ensures(CongestionController::on_loss, (lost, bytes), ()),
    ensures
        final(lost).bytes_in_flight == old(sending).bytes_in_flight,
        final(lost).cwnd == final(lost).ssthresh,
        final(lost).cwnd >= old(sending).min_cwnd,
        final(lost).cwnd > old(sending).min_cwnd ==> 2 * final(lost).cwnd <= old(sending).cwnd < 2
            * final(lost).cwnd + 2,
        2 * old(sending).min_cwnd >= old(sending).cwnd ==> final(lost).cwnd
            == old(sending).min_cwnd,
        final(lost).min_cwnd == old(sending).min_cwnd,
        final(lost).max_cwnd == old(sending).max_cwnd,
{
}

/// More leaves the flight than was in it at no time.
pub proof fn law_flight_never_runs_short(
    acked: &mut CongestionController,
    lost: &mut CongestionController,
    bytes: usize,
)
    requires
        old(acked).well_formed(),
        bytes >= old(acked).bytes_in_flight,
        *old(lost) == *old(acked),
        call_ensures(CongestionController::on_acked, (acked, bytes), ()),
        call_ensures(CongestionController::on_loss, (lost, bytes), ()),
    ensures
        final(acked).bytes_in_flight == 0,
        final(lost).bytes_in_flight == 0,
{
}

/// Below the threshold the window grows by what was acknowledged, up to its most;
/// above it by at most one segment for a whole window, but by something.
pub proof fn law_window_grows_with_acknowledgements(
    acked: &mut CongestionController,
    bytes: usize,
)
    requires
        old(acked).well_formed(),
        call_ensures(CongestionController::on_acked, (acked, bytes), ()),
    ensures
        final(acked).cwnd <= old(acked).max_cwnd,
        old(acked).cwnd < old(acked).ssthresh && old(acked).cwnd + bytes <= old(acked).max_cwnd
            ==> final(acked).cwnd == old(acked).cwnd + bytes,
        old(acked).cwnd < old(acked).ssthresh && old(acked).cwnd + bytes > old(acked).max_cwnd
            ==> final(acked).cwnd == old(acked).max_cwnd,
        old(acked).cwnd >= old(acked).ssthresh && old(acked).cwnd < old(acked).max_cwnd
            ==> final(acked).cwnd > old(acked).cwnd,
        old(acked).cwnd >= old(acked).ssthresh && old(acked).cwnd > 0 && bytes <= old(acked).cwnd
            ==> final(acked).cwnd <= old(acked).cwnd + old(acked).mss,
{
    let before = *old(acked);
    let after = *final(acked);
    if before.cwnd >= before.ssthresh && before.cwnd > 0 && bytes <= before.cwnd {
        let segment: int = before.mss as int;
        let window: int = before.cwnd as int;
        let count: int = bytes as int;
        let product: int = segment * count;
        let held: int = if product <= u64::MAX {
            product
        } else {
            u64::MAX as int
        };
        assert(product <= segment * window) by (nonlinear_arith)
            requires
                product == segment * count,
                0 <= count <= window,
                segment >= 1,
        ;
        assert(held / window <= segment) by (nonlinear_arith)
            requires
                held <= segment * window,
                window > 0,
        ;
    }
}

/// Bytes may be sent exactly if with them no more is in flight than the window
/// holds.
pub proof fn law_flight_keeps_within_the_window(
    controller: CongestionController,
    bytes: usize,
    room: bool,
)
    requires
        call_ensures(CongestionController::can_send, (controller, bytes), room),
        controller.cwnd < u64::MAX,
    ensures
        room <==> controller.bytes_in_flight + bytes <= controller.cwnd,
{
}

/// A new controller has nothing in flight, and its first window is the one asked
/// for, kept within its bounds.
pub proof fn law_first_window_is_the_one_asked_for(
    initial_cwnd: u64,
    min_cwnd: u64,
    max_cwnd: u64,
    mss: usize,
    controller: CongestionController,
)
    requires
        min_cwnd <= max_cwnd,
        call_ensures(
            CongestionController::new,
            (initial_cwnd, min_cwnd, max_cwnd, mss),
            controller,
        ),
    ensures
        controller.bytes_in_flight == 0,
        min_cwnd <= controller.cwnd <= max_cwnd,
        min_cwnd <= initial_cwnd <= max_cwnd ==> controller.cwnd == initial_cwnd,
        initial_cwnd < min_cwnd ==> controller.cwnd == min_cwnd,
        initial_cwnd > max_cwnd ==> controller.cwnd == max_cwnd,
        controller.ssthresh >= controller.cwnd,
{
}

/// The first measurement is taken as it is; the timeout leaves three times as much
/// time again, within its bounds.
pub proof fn law_first_measurement_is_taken_as_it_is(
    estimator: &mut RttEstimator,
    sample: Duration,
    ack_delay: Duration,
)
    requires
        old(estimator).well_formed(),
        old(estimator).srtt is None,
        ack_delay@ <= sample@,
        call_ensures(RttEstimator::on_ack, (estimator, sample, ack_delay), ()),
    ensures
        final(estimator).srtt is Some,
        final(estimator).srtt->0@ == sample@ - ack_delay@,
        2 * final(estimator).rttvar@ <= sample@ - ack_delay@ <= 2 * final(estimator).rttvar@ + 1,
        old(estimator).min_rto@ <= final(estimator).rto@ <= old(estimator).max_rto@,
        final(estimator).rto@ == old(estimator).max_rto@ || final(estimator).rto@ >= sample@
            - ack_delay@ + old(estimator).granularity@,
        final(estimator).rto@ == old(estimator).max_rto@ || final(estimator).rto@ >= 3 * (sample@
            - ack_delay@) - 2,
        final(estimator).rto@ == old(estimator).min_rto@ || final(estimator).rto@ <= 3 * (sample@
            - ack_delay@) || final(estimator).rto@ <= sample@ - ack_delay@ + old(
            estimator,
        ).granularity@,
{
}

/// Each later measurement moves the smoothed time an eighth of the way towards it,
/// and the variation a quarter of the way towards the distance. Equal measurements
/// leave the smoothed time as it is and let the variation shrink.
pub proof fn law_later_measurements_are_smoothed(
    estimator: &mut RttEstimator,
    sample: Duration,
    ack_delay: Duration,
)
    requires
        old(estimator).well_formed(),
        old(estimator).srtt is Some,
        ack_delay@ <= sample@,
        old(estimator).srtt->0@ * 7 + sample@ <= MAX_NANOS,
        old(estimator).rttvar@ * 3 + old(estimator).srtt->0@ + sample@ <= MAX_NANOS,
        call_ensures(RttEstimator::on_ack, (estimator, sample, ack_delay), ()),
    ensures
        final(estimator).srtt is Some,
        ({
            let was: int = old(estimator).srtt->0@ as int;
            let now: int = final(estimator).srtt->0@ as int;
            let measure: int = sample@ - ack_delay@;
            let varied: int = old(estimator).rttvar@ as int;
            let varies: int = final(estimator).rttvar@ as int;
            let off: int = if was <= measure {
                measure - was
            } else {
                was - measure
            };
            &&& measure - was - 7 <= 8 * (now - was) <= measure - was
            &&& off - varied - 3 <= 4 * (varies - varied) <= off - varied
            &&& measure == was ==> now == was && varies <= varied
        }),
        final(estimator).rto@ == old(estimator).max_rto@ || final(estimator).rto@
            >= final(estimator).srtt->0@ + 4 * final(estimator).rttvar@,
        final(estimator).rto@ == old(estimator).max_rto@ || final(estimator).rto@
            >= final(estimator).srtt->0@ + old(estimator).granularity@,
        final(estimator).rto@ == old(estimator).min_rto@ || final(estimator).rto@
            <= final(estimator).srtt->0@ + 4 * final(estimator).rttvar@ || final(estimator).rto@
            <= final(estimator).srtt->0@ + old(estimator).granularity@,
        old(estimator).min_rto@ <= final(estimator).rto@ <= old(estimator).max_rto@,
{
}

/// A timeout doubles the time that the next one waits, up to its most, and tells
/// nothing of the path. An acknowledgement after that takes the doubling back.
pub proof fn law_timeout_doubles_until_it_is_undone(
    late: &mut RttEstimator,
    back: &mut RttEstimator,
    ready: &mut RttEstimator,
)
    requires
        old(late).well_formed(),
        call_ensures(RttEstimator::on_timeout, (late,), ()),
        *old(back) == *final(late),
        call_ensures(RttEstimator::reset_backoff, (back,), ()),
        *old(ready) == *old(late),
        call_ensures(RttEstimator::reset_backoff, (ready,), ()),
    ensures
        2 * old(late).rto@ <= old(late).max_rto@ ==> final(late).rto@ == 2 * old(late).rto@,
        2 * old(late).rto@ > old(late).max_rto@ ==> final(late).rto@ == old(late).max_rto@,
        final(late).srtt == old(late).srtt,
        final(back).rto@ == final(ready).rto@,
        final(back).srtt == old(late).srtt,
        old(late).srtt is None ==> final(back).rto@ == old(late).initial_rto@,
{
}

/// Undoing the doubling gives the timeout that the last measurement gave.
pub proof fn law_undone_timeout_is_the_measured_one(
    measuring: &mut RttEstimator,
    sample: Duration,
    ack_delay: Duration,
    late: &mut RttEstimator,
    back: &mut RttEstimator,
)
    requires
        old(measuring).well_formed(),
        old(measuring).srtt is None,
        call_ensures(RttEstimator::on_ack, (measuring, sample, ack_delay), ()),
        *old(late) == *final(measuring),
        call_ensures(RttEstimator::on_timeout, (late,), ()),
        *old(back) == *final(late),
        call_ensures(RttEstimator::reset_backoff, (back,), ()),
    ensures
        final(back).rto@ == final(measuring).rto@,
{
}

/// The limit that the other side gave holds: new bytes may be sent exactly if with
/// them no more than it were sent, and what was sent before may always be sent
/// again.
pub proof fn law_limit_of_the_other_side_holds(
    flow: &SendFlowControl,
    length: usize,
    fresh: bool,
    again: bool,
)
    requires
        call_ensures(SendFlowControl::can_send, (flow, length, false), fresh),
        call_ensures(SendFlowControl::can_send, (flow, length, true), again),
    ensures
        fresh <==> flow.connection_sent_offset + length <= flow.connection_max_offset,
        again,
{
}

/// A limit is only ever raised, and what was sent counts towards it.
pub proof fn law_limit_is_only_raised(
    raising: &mut SendFlowControl,
    max_offset: u64,
    counting: &mut SendFlowControl,
    length: usize,
)
    requires
        call_ensures(SendFlowControl::update, (raising, max_offset), ()),
        *old(counting) == *final(raising),
        old(counting).connection_sent_offset + length <= u64::MAX,
        call_ensures(SendFlowControl::account_new_data, (counting, length), ()),
    ensures
        final(raising).connection_max_offset >= old(raising).connection_max_offset,
        final(raising).connection_max_offset >= max_offset,
        final(raising).connection_max_offset == max_offset || final(raising).connection_max_offset
            == old(raising).connection_max_offset,
        final(raising).connection_sent_offset == old(raising).connection_sent_offset,
        final(counting).connection_sent_offset == old(raising).connection_sent_offset + length,
        final(counting).connection_max_offset == final(raising).connection_max_offset,
{
}

/// What is read makes room for as much again: the announced limit is a whole window
/// ahead of what was read, and never goes back.
pub proof fn law_read_bytes_make_room(
    flow: &mut ReceiveFlowControl,
    amount: usize,
    update: Option<u64>,
)
    requires
        old(flow).consumed + amount + old(flow).window_size <= u64::MAX,
        old(flow).max_offset == old(flow).advertised_offset,
        call_ensures(ReceiveFlowControl::consume, (flow, amount), update),
    ensures
        final(flow).consumed == old(flow).consumed + amount,
        final(flow).unique_received == old(flow).unique_received,
        final(flow).window_size == old(flow).window_size,
        final(flow).max_offset >= old(flow).max_offset,
        final(flow).max_offset >= final(flow).consumed + final(flow).window_size,
        final(flow).max_offset == final(flow).advertised_offset,
        update is Some <==> final(flow).max_offset > old(flow).max_offset,
        update is Some ==> update->0 == final(flow).max_offset && update->0
            == final(flow).consumed + final(flow).window_size,
{
}

/// Bytes up to the announced limit are taken, and none beyond it.
pub proof fn law_bytes_within_the_announced_limit_are_taken(
    window_size: u64,
    flow: ReceiveFlowControl,
    stream_id: Option<StreamId>,
    end: u64,
    new_bytes: usize,
    result: Result<(), CoreError>,
)
    requires
        call_ensures(ReceiveFlowControl::new, (window_size,), flow),
        call_ensures(ReceiveFlowControl::check, (&flow, stream_id, end, new_bytes), result),
    ensures
        result is Ok <==> end <= window_size,
        result is Err ==> result->Err_0 is FlowControlViolation,
{
}

/// Whether a packet is among the received ones: some range from its first number
/// to its last one holds it.
pub open spec fn is_among(ranges: Seq<AckRange>, number: u64) -> bool {
    exists|i: int|
        0 <= i < ranges.len() && (#[trigger] ranges[i]).start.value <= number
            && number <= ranges[i].end.value
}

/// A packet that came is new exactly if it is not among the received ones. The
/// newest stays among them as long as there is room for a range, and one that
/// was there is not new when it comes again.
pub proof fn law_newest_packet_is_remembered(
    coming: &mut ReceivedPackets,
    number: PacketNumber,
    now: Duration,
    added: bool,
    again: &mut ReceivedPackets,
    later: Duration,
    added_again: bool,
)
    requires
        old(coming).well_formed(),
        old(coming).limit() > 0,
        forall|other: u64| #[trigger]
            is_among(old(coming).held(), other) ==> other <= number.value,
        call_ensures(ReceivedPackets::record, (coming, number, now), added),
        *old(again) == *final(coming),
        call_ensures(ReceivedPackets::record, (again, number, later), added_again),
    ensures
        added <==> !is_among(old(coming).held(), number.value),
        is_among(final(coming).held(), number.value),
        !added_again,
        final(again).held() == final(coming).held(),
{
    let held = old(coming).held();
    let after = final(coming).held();
    assert(ranges_hold(held, number.value) == is_among(held, number.value));
    if added {
        let wider = choose|wider: Seq<AckRange>| #[trigger]
            ranges_with(held, wider, number.value) && after
                == first_ranges(wider, old(coming).limit() as nat);
        assert(ranges_hold(wider, number.value));
        let i = choose|i: int| 0 <= i < wider.len() && (#[trigger] wider[i]).holds(number.value);
        if i > 0 {
            let top = wider[0].end.value;
            assert(wider[0].start.value > wider[i].end.value + 1);
            assert(wider[0].holds(top));
            assert(ranges_hold(wider, top));
            assert(ranges_hold(held, top));
            let k = choose|k: int| 0 <= k < held.len() && (#[trigger] held[k]).holds(top);
            assert(held[k].start.value <= top);
            assert(is_among(held, top));
        }
        assert(after[0] == wider[0]);
        assert(after[0].start.value <= number.value);
    } else {
        assert(is_among(after, number.value));
    }
    let j = choose|j: int|
        0 <= j < after.len() && (#[trigger] after[j]).start.value <= number.value && number.value
            <= after[j].end.value;
    assert(after[j].holds(number.value));
    assert(ranges_hold(after, number.value));
}

/// An acknowledgement names the highest packet that came and all that are
/// remembered, and no more delay than there was or than is allowed.
pub proof fn law_acknowledgement_names_what_came(
    received: &ReceivedPackets,
    now: Duration,
    ack_delay: Duration,
    largest: Option<PacketNumber>,
    frame: Option<AckFrame>,
    number: u64,
)
    requires
        received.well_formed(),
        call_ensures(ReceivedPackets::largest, (received,), largest),
        call_ensures(ReceivedPackets::frame, (received, now, ack_delay), frame),
    ensures
        frame is Some <==> largest is Some,
        is_among(received.held(), number) ==> largest is Some && number <= largest->0.value,
        largest is Some ==> is_among(received.held(), largest->0.value),
        frame is Some ==> {
            &&& Some(frame->0.largest) == largest
            &&& is_among(frame->0.ranges@, number) <==> is_among(received.held(), number)
            &&& frame->0.ack_delay@ <= ack_delay@
            &&& received.largest_at() is Some && now@ >= received.largest_at()->0@ && now@
                - received.largest_at()->0@ <= ack_delay@ ==> frame->0.ack_delay@ == now@
                - received.largest_at()->0@
        },
{
    let held = received.held();
    if held.len() > 0 {
        assert(held[0].start.value <= held[0].end.value);
        assert(is_among(held, held[0].end.value));
        if is_among(held, number) {
            let i = choose|i: int|
                0 <= i < held.len() && (#[trigger] held[i]).start.value <= number && number
                    <= held[i].end.value;
            if i > 0 {
                assert(held[0].start.value > held[i].end.value + 1);
            }
        }
    }
}

/// An acknowledgement is of the packets whose numbers its ranges hold.
pub proof fn law_acknowledged_packets_are_in_the_ranges(
    ack: &AckFrame,
    number: u64,
    acknowledged: bool,
)
    requires
        call_ensures(AckFrame::acknowledges, (ack, number), acknowledged),
    ensures
        acknowledged <==> is_among(ack.ranges@, number),
{
    if is_among(ack.ranges@, number) {
        let i = choose|i: int|
            0 <= i < ack.ranges@.len() && (#[trigger] ack.ranges@[i]).start.value <= number
                && number <= ack.ranges@[i].end.value;
        assert(ack.ranges@[i].holds(number));
    }
}

} // verus!
