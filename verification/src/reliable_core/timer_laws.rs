//! What a connection does when its timers ring, and when it is closed.

use vstd::prelude::*;

use crate::duration::Duration;
use crate::reliable_core::ack::{first_ranges, ranges_canonical, ranges_with};
use crate::reliable_core::connection::Connection;
use crate::reliable_core::connection_laws::{lemma_rings, rings_for};
use crate::reliable_core::error::CoreError;
use crate::reliable_core::event::{ConnectionState, OutputView};
use crate::reliable_core::pacing_laws::is_among;
use crate::reliable_core::timer::TimerEvent;
use crate::reliable_core::timers::{items_of, slots_follow};
use crate::reliable_core::transition::{
    ack_asked, close_prepared, packet_noted, time_passed, ConnectionView,
};
use crate::time_wheel::wheel::{in_firing_order, moved};
use crate::time_wheel::Expired;
use crate::wire::{
    ranges_hold, AckRange, FrameView, PacketNumber, PacketType, PacketView, Ping, Wire,
};

verus! {

/// While the handshake goes on and may be tried again, its timer has the frame of
/// the handshake sent again, before all that waits, and is set again. Outside of
/// the handshake it does nothing.
pub proof fn law_handshake_is_tried_again<W: Wire>(
    wire: &W,
    connection: &mut Connection,
    result: Result<(), CoreError>,
)
    requires
        old(connection).well_formed(),
        call_ensures(
            Connection::process_timer::<W>,
            (connection, TimerEvent::HandshakeTimeout, wire),
            result,
        ),
    ensures
        old(connection)@.state != ConnectionState::Handshaking ==> result is Ok
            && final(connection)@ == old(connection)@,
        ({
            let before = old(connection)@;
            let after = final(connection)@;
            before.state == ConnectionState::Handshaking && before.handshake.frame is Some
                && before.handshake.retries < before.config.max_retransmissions ==> {
                &&& after.state == ConnectionState::Handshaking
                &&& after.transport.pending.len() == before.transport.pending.len() + 1
                &&& after.transport.pending[0].frame == before.handshake.frame->0
                &&& forall|i: int|
                    0 <= i < before.transport.pending.len()
                        ==> #[trigger] before.transport.pending[i]
                        == after.transport.pending[i + 1]
                &&& after.handshake.retries == before.handshake.retries + 1
                &&& after.handshake.frame == before.handshake.frame
                &&& after.streams == before.streams
                &&& result is Ok ==> after.timers.handshake is Some && rings_for(
                    before.timers,
                    after.timers,
                    after.timers.handshake->0,
                    TimerEvent::HandshakeTimeout,
                    before.config.handshake_timeout,
                )
            }
        }),
        ({
            let before = old(connection)@;
            let after = final(connection)@;
            before.state == ConnectionState::Handshaking && (before.handshake.frame is None
                || before.handshake.retries >= before.config.max_retransmissions) ==> {
                &&& after.state == ConnectionState::Closing
                &&& after.close_error == Some(1u32)
            }
        }),
{
    let before = old(connection)@;
    let after = final(connection)@;
    if before.state == ConnectionState::Handshaking && before.handshake.frame is Some
        && before.handshake.retries < before.config.max_retransmissions {
        if result is Ok {
            lemma_rings(
                before.timers,
                after.timers,
                after.timers.handshake->0,
                TimerEvent::HandshakeTimeout,
                before.config.handshake_timeout,
            );
        }
        assert forall|i: int|
            0 <= i < before.transport.pending.len() implies #[trigger] before.transport.pending[i]
            == after.transport.pending[i + 1] by {
        }
    }
}

/// Whether a frame waits to leave for so many times.
pub open spec fn waits_again(view: ConnectionView, frame: FrameView, count: u32) -> bool {
    match frame {
        FrameView::StreamData(data) => {
            let queue = view.streams[data.stream_id.value].send.queue;
            &&& view.streams.contains_key(data.stream_id.value)
            &&& queue.len() > 0
            &&& queue[0].offset == data.offset
            &&& queue[0].data == data.data
            &&& queue[0].fin == data.fin
            &&& queue[0].retransmit_count == count
            &&& data.fin ==> !view.streams[data.stream_id.value].send.fin_sent
        },
        _ => view.transport.pending.len() > 0 && view.transport.pending[0].frame == frame
            && view.transport.pending[0].retransmit_count == count,
    }
}

/// The timer of a packet that is not acknowledged has its frame sent again, ahead of
/// what waits. The packet leaves the flight, the window halves and the timeout
/// doubles. After too many times the connection closes instead. The timer of a
/// packet that is acknowledged, or was sent anew, does nothing.
pub proof fn law_overdue_packet_is_sent_again<W: Wire>(
    wire: &W,
    connection: &mut Connection,
    number: PacketNumber,
    generation: u32,
    result: Result<(), CoreError>,
)
    requires
        old(connection).well_formed(),
        call_ensures(
            Connection::process_timer::<W>,
            (connection, TimerEvent::Retransmit { packet_number: number, generation }, wire),
            result,
        ),
    ensures
        ({
            let before = old(connection)@;
            let after = final(connection)@;
            let packet = before.transport.sent[number.value];
            let due = before.transport.sent.contains_key(number.value) && packet.generation
                == generation;
            &&& !due ==> result is Ok && after == before
            &&& due ==> {
                &&& !after.transport.sent.contains_key(number.value)
                &&& forall|other: u64|
                    other != number.value ==> after.transport.sent.contains_key(other)
                        == #[trigger] before.transport.sent.contains_key(other)
                &&& before.transport.congestion.bytes_in_flight >= packet.encoded_len
                    ==> after.transport.congestion.bytes_in_flight
                    == before.transport.congestion.bytes_in_flight - packet.encoded_len
                &&& after.transport.congestion.cwnd == before.transport.congestion.min_cwnd || (2
                    * after.transport.congestion.cwnd <= before.transport.congestion.cwnd < 2
                    * after.transport.congestion.cwnd + 2)
                &&& after.transport.rtt.rto@ == 2 * before.transport.rtt.rto@
                    || after.transport.rtt.rto@ == before.transport.rtt.max_rto@
                &&& after.transport.rtt.rto@ <= before.transport.rtt.max_rto@
                &&& after.transport.rtt.srtt == before.transport.rtt.srtt
                &&& packet.retransmit_count >= before.config.max_retransmissions
                    && packet.retransmit_count < u32::MAX ==> {
                    &&& result == Err::<(), CoreError>(CoreError::RetransmissionLimit)
                    &&& after.state == ConnectionState::Closing
                    &&& after.close_error == Some(3u32)
                }
                &&& packet.retransmit_count < before.config.max_retransmissions && result is Ok
                    ==> {
                    &&& waits_again(
                        after,
                        packet.frame.frame,
                        (packet.retransmit_count + 1) as u32,
                    )
                    &&& after.state == before.state
                }
                &&& packet.retransmit_count < before.config.max_retransmissions && result is Err
                    ==> packet.frame.frame is StreamData && !before.streams.contains_key(
                    packet.frame.frame->StreamData_0.stream_id.value,
                )
            }
        }),
{
}

/// When the delay of an acknowledgement is over, one that is owed may leave.
pub proof fn law_delayed_acknowledgement_becomes_ready<W: Wire>(
    wire: &W,
    connection: &mut Connection,
    result: Result<(), CoreError>,
)
    requires
        old(connection).well_formed(),
        call_ensures(
            Connection::process_timer::<W>,
            (connection, TimerEvent::AckDelay, wire),
            result,
        ),
    ensures
        result is Ok,
        old(connection)@.transport.ack_pending ==> final(connection)@.transport.ack_ready,
        !old(connection)@.transport.ack_pending ==> final(connection)@ == old(connection)@,
        final(connection)@.transport.ack_pending == old(connection)@.transport.ack_pending,
        final(connection)@.streams == old(connection)@.streams,
        final(connection)@.transport.pending == old(connection)@.transport.pending,
        final(connection)@.transport.sent == old(connection)@.transport.sent,
{
}

/// An established connection that is kept alive asks the other side for an answer,
/// each time with another number, and again after the interval.
pub proof fn law_connection_is_kept_alive<W: Wire>(
    wire: &W,
    connection: &mut Connection,
    result: Result<(), CoreError>,
)
    requires
        old(connection).well_formed(),
        call_ensures(
            Connection::process_timer::<W>,
            (connection, TimerEvent::Keepalive, wire),
            result,
        ),
    ensures
        ({
            let before = old(connection)@;
            let after = final(connection)@;
            let count = before.transport.pending.len() as int;
            &&& before.state == ConnectionState::Established ==> {
                &&& after.transport.pending.len() == count + 1
                &&& after.transport.pending[count].frame == FrameView::Ping(
                    Ping { nonce: after.transport.last_ping_nonce },
                )
                &&& after.transport.last_ping_nonce != before.transport.last_ping_nonce
                &&& after.transport.pending.subrange(0, count) == before.transport.pending
            }
            &&& before.state != ConnectionState::Established ==> after.transport
                == before.transport
            &&& after.state == before.state
            &&& after.streams == before.streams
            &&& before.config.keepalive_interval is Some && result is Ok ==> {
                &&& after.timers.keepalive is Some
                &&& rings_for(
                    before.timers,
                    after.timers,
                    after.timers.keepalive->0,
                    TimerEvent::Keepalive,
                    before.config.keepalive_interval->0,
                )
            }
        }),
{
    let before = old(connection)@;
    let after = final(connection)@;
    let count = before.transport.pending.len() as int;
    if before.state == ConnectionState::Established {
        assert(after.transport.pending.subrange(0, count) =~= before.transport.pending);
    }
    if before.config.keepalive_interval is Some && result is Ok {
        lemma_rings(
            before.timers,
            after.timers,
            after.timers.keepalive->0,
            TimerEvent::Keepalive,
            before.config.keepalive_interval->0,
        );
    }
}

/// A connection on which nothing comes for too long closes, unless it is closing
/// already.
pub proof fn law_idle_connection_closes<W: Wire>(
    wire: &W,
    connection: &mut Connection,
    result: Result<(), CoreError>,
)
    requires
        old(connection).well_formed(),
        call_ensures(
            Connection::process_timer::<W>,
            (connection, TimerEvent::IdleTimeout, wire),
            result,
        ),
    ensures
        ({
            let before = old(connection)@;
            let after = final(connection)@;
            if before.state == ConnectionState::Closed || before.state == ConnectionState::Closing {
                result is Ok && after == before
            } else {
                after.state == ConnectionState::Closing && after.close_error == Some(2u32)
            }
        }),
{
}

/// When the time to close is over the connection is closed: no timer is left, and
/// the error it was closed with is told.
pub proof fn law_closing_connection_is_closed_in_the_end<W: Wire>(
    wire: &W,
    connection: &mut Connection,
    result: Result<(), CoreError>,
)
    requires
        old(connection).well_formed(),
        call_ensures(
            Connection::process_timer::<W>,
            (connection, TimerEvent::CloseTimeout, wire),
            result,
        ),
    ensures
        result is Ok,
        final(connection)@.state == ConnectionState::Closed,
        forall|key: u64| !(#[trigger] final(connection)@.timers.timers.contains_key(key)),
        final(connection)@.output.len() > 0,
        final(connection)@.output.last() is ConnectionClosed,
        old(connection)@.close_error is Some ==> final(connection)@.output.last() == (
        OutputView::ConnectionClosed { error_code: old(connection)@.close_error->0 }),
{
}

/// Closing a connection queues the close for the other side, with the error and the
/// reason, and sets the time until it is closed without them.
pub proof fn law_close_is_told_with_its_reason(
    before: ConnectionView,
    error_code: u32,
    reason: Seq<char>,
    after: ConnectionView,
    result: Result<(), CoreError>,
)
    requires
        close_prepared(before, error_code, reason, after, result),
    ensures
        after.state == ConnectionState::Closing,
        after.close_error == Some(error_code),
        after.transport.pending.len() == before.transport.pending.len() + 1,
        after.transport.pending.drop_last() == before.transport.pending,
        after.transport.pending.last().frame is ConnectionClose,
        after.transport.pending.last().frame->ConnectionClose_error_code == error_code,
        after.transport.pending.last().frame->ConnectionClose_reason == reason,
        after.streams == before.streams,
        result is Ok ==> after.timers.close is Some && rings_for(
            before.timers,
            after.timers,
            after.timers.close->0,
            TimerEvent::CloseTimeout,
            before.config.close_timeout,
        ),
{
    assert(after.transport.pending.drop_last() =~= before.transport.pending);
    if result is Ok {
        lemma_rings(
            before.timers,
            after.timers,
            after.timers.close->0,
            TimerEvent::CloseTimeout,
            before.config.close_timeout,
        );
    }
}

/// A connection that is asked to close is closing afterwards, whatever comes of
/// sending; one that is closed stays as it is.
pub proof fn law_closed_connection_is_closing<W: Wire>(
    wire: &W,
    connection: &mut Connection,
    error_code: u32,
    reason: String,
    result: Result<(), CoreError>,
)
    requires
        old(connection).well_formed(),
        call_ensures(Connection::close::<W>, (connection, error_code, reason, wire), result),
    ensures
        old(connection)@.state == ConnectionState::Closed ==> result is Ok
            && final(connection)@ == old(connection)@,
        old(connection)@.state != ConnectionState::Closed ==> final(connection)@.state
            == ConnectionState::Closing && final(connection)@.close_error == Some(error_code),
        final(connection)@.streams.dom() == old(connection)@.streams.dom(),
{
}

/// A packet that comes restarts the time after which the connection counts as idle.
/// Its number is among the received ones as long as it is the highest so far and
/// there is room, unless it asks to try again with a cookie.
pub proof fn law_packet_keeps_the_connection_from_idling(
    before: ConnectionView,
    packet: PacketView,
    after: ConnectionView,
)
    requires
        ranges_canonical(before.transport.held),
        packet_noted(before, packet, after, Ok(())),
    ensures
        after.timers.idle is Some,
        before.timers.idle is Some && before.timers.idle->0.value()
            == after.timers.idle->0.value() || rings_for(
            before.timers,
            after.timers,
            after.timers.idle->0,
            TimerEvent::IdleTimeout,
            before.config.idle_timeout,
        ),
        after.timers.timers.contains_key(after.timers.idle->0.value()),
        after.timers.timers[after.timers.idle->0.value()].item == TimerEvent::IdleTimeout,
        before.timers.idle is Some && before.timers.idle->0.value()
            != after.timers.idle->0.value() ==> !after.timers.timers.contains_key(
            before.timers.idle->0.value(),
        ),
        packet.packet_type == PacketType::Retry ==> after.transport == before.transport,
        is_among(before.transport.held, packet.packet_number.value) ==> after.transport
            == before.transport,
        packet.packet_type != PacketType::Retry && before.transport.max_ranges > 0 && (forall|
            other: u64,
        | #[trigger]
            is_among(before.transport.held, other) ==> other < packet.packet_number.value)
            ==> is_among(after.transport.held, packet.packet_number.value)
            && after.transport.largest_at == Some(before.now),
        after.streams == before.streams,
        after.transport.pending == before.transport.pending,
        after.transport.sent == before.transport.sent,
        after.output == before.output,
{
    let id = after.timers.idle->0;
    let number = packet.packet_number.value;
    let held = before.transport.held;
    assert(ranges_hold(held, number) == is_among(held, number)) by {
        if is_among(held, number) {
            let i = choose|i: int|
                0 <= i < held.len() && (#[trigger] held[i]).start.value <= number && number
                    <= held[i].end.value;
            assert(held[i].holds(number));
        }
    }
    if before.timers.idle is None || before.timers.idle->0.value() != id.value() {
        lemma_rings(
            before.timers,
            after.timers,
            id,
            TimerEvent::IdleTimeout,
            before.config.idle_timeout,
        );
    }
    if packet.packet_type != PacketType::Retry && before.transport.max_ranges > 0 && (forall|
        other: u64,
    | #[trigger]
        is_among(held, other) ==> other < number) {
        lemma_highest_is_held(before, packet, after);
    }
}

proof fn lemma_highest_is_held(before: ConnectionView, packet: PacketView, after: ConnectionView)
    requires
        ranges_canonical(before.transport.held),
        packet_noted(before, packet, after, Ok(())),
        packet.packet_type != PacketType::Retry,
        before.transport.max_ranges > 0,
        forall|other: u64| #[trigger]
            is_among(before.transport.held, other) ==> other < packet.packet_number.value,
    ensures
        is_among(after.transport.held, packet.packet_number.value),
        after.transport.largest_at == Some(before.now),
{
    let number = packet.packet_number.value;
    let held = before.transport.held;
    if ranges_hold(held, number) {
        let i = choose|i: int| 0 <= i < held.len() && (#[trigger] held[i]).holds(number);
        assert(held[i].start.value <= number);
        assert(is_among(held, number));
    }
    let wider = choose|wider: Seq<AckRange>| #[trigger]
        ranges_with(held, wider, number) && after.transport.held == first_ranges(
            wider,
            before.transport.max_ranges as nat,
        );
    assert(ranges_hold(wider, number));
    let i = choose|i: int| 0 <= i < wider.len() && (#[trigger] wider[i]).holds(number);
    if i > 0 {
        let top = wider[0].end.value;
        assert(wider[0].start.value > wider[i].end.value + 1);
        assert(wider[0].holds(top));
        assert(ranges_hold(wider, top));
        assert(ranges_hold(held, top));
        let k = choose|k: int| 0 <= k < held.len() && (#[trigger] held[k]).holds(top);
        assert(held[k].start.value <= top);
        assert(is_among(held, top));
    }
    assert(after.transport.held[0] == wider[0]);
    if held.len() > 0 {
        assert(held[0].start.value <= held[0].end.value);
        assert(is_among(held, held[0].end.value));
    }
}

/// What asks for an acknowledgement gets one: at once if there is no delay, else
/// when the delay that runs already, or is set now, is over.
pub proof fn law_asked_acknowledgement_is_owed(
    before: ConnectionView,
    asks: bool,
    after: ConnectionView,
    result: Result<(), CoreError>,
)
    requires
        ack_asked(before, asks, after, result),
    ensures
        !asks ==> after == before && result is Ok,
        asks ==> after.transport.ack_pending,
        asks && before.config.ack_delay@ == 0 ==> after.transport.ack_ready,
        asks && result is Ok ==> after.transport.ack_ready || after.timers.ack is Some,
        asks && result is Ok && before.config.ack_delay@ > 0 && !before.transport.ack_ready
            && before.timers.ack is None ==> rings_for(
            before.timers,
            after.timers,
            after.timers.ack->0,
            TimerEvent::AckDelay,
            before.config.ack_delay,
        ),
        before.timers.ack is Some ==> after.timers == before.timers && result is Ok,
        after.transport.held == before.transport.held,
        after.streams == before.streams,
{
    if asks && result is Ok && before.config.ack_delay@ > 0 && !before.transport.ack_ready
        && before.timers.ack is None {
        lemma_rings(
            before.timers,
            after.timers,
            after.timers.ack->0,
            TimerEvent::AckDelay,
            before.config.ack_delay,
        );
    }
}

/// When time passes, exactly the timers that are due by then ring, each once, and the
/// others stay as they are. The clock goes on by the time that has passed.
pub proof fn law_due_timers_ring(
    before: ConnectionView,
    elapsed: Duration,
    events: Seq<TimerEvent>,
    after: ConnectionView,
    key: u64,
    at: int,
)
    requires
        time_passed(before, elapsed, events, after),
    ensures
        after.now@ == before.now@ + elapsed@,
        before.timers.timers.contains_key(key) && before.timers.timers[key].deadline_tick
            <= after.timers.tick ==> !after.timers.timers.contains_key(key) && events.contains(
            before.timers.timers[key].item,
        ),
        before.timers.timers.contains_key(key) && before.timers.timers[key].deadline_tick
            > after.timers.tick ==> after.timers.timers.contains_key(key)
            && after.timers.timers[key] == before.timers.timers[key],
        after.timers.timers.contains_key(key) ==> before.timers.timers.contains_key(key),
        0 <= at < events.len() ==> exists|due: u64| #[trigger]
            before.timers.timers.contains_key(due) && before.timers.timers[due].item == events[at]
                && before.timers.timers[due].deadline_tick <= after.timers.tick,
        after.streams == before.streams,
        after.transport == before.transport,
        after.output == before.output,
{
    let total = before.timers.remainder + elapsed@;
    let gone = choose|gone: Seq<Expired<TimerEvent>>| #[trigger]
        moved(before.timers.timers, after.timers.timers, gone) && in_firing_order(
            gone,
            total / before.timers.tick_nanos,
        ) && slots_follow(
            before.timers,
            after.timers,
            gone,
            total / before.timers.tick_nanos,
        ) && events == items_of(gone);
    if before.timers.timers.contains_key(key) && before.timers.timers[key].deadline_tick
        <= after.timers.tick {
        assert(!after.timers.timers.contains_key(key));
        let i = choose|i: int| 0 <= i < gone.len() && (#[trigger] gone[i]).id.value() == key;
        assert(events[i] == before.timers.timers[key].item);
    }
    if 0 <= at < events.len() {
        let due = gone[at].id.value();
        assert(before.timers.timers.contains_key(due));
        assert(events[at] == gone[at].item);
        assert(!after.timers.timers.contains_key(due));
    }
}

} // verus!
