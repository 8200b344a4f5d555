//! What a whole packet brings about, and which settings a connection takes.

use vstd::prelude::*;

use crate::reliable_core::config::{ConnectionConfig, ConnectionConfigError, ConnectionRole};
use crate::reliable_core::connection::Connection;
use crate::reliable_core::error::CoreError;
use crate::reliable_core::event::{output_views, ConnectionState, CoreOutput};
use crate::reliable_core::sending_laws::{law_sending_keeps_the_limits_of_streams, same_limits};
use crate::reliable_core::transition::{
    ack_asked, ack_follows, acks_done, answer_given, frame_done, frame_follows, frames_done,
    frames_taken, packet_answered, packet_done, packet_noted, repeated, sent_on, ConnectionView,
};
use crate::wire::{ranges_hold, FrameView, MaxStreamData, Packet, PacketType, PacketView, Wire};

verus! {

/// A packet of another connection, or one that comes when the connection is closed,
/// is refused and changes nothing.
pub proof fn law_only_own_packets_are_taken<W: Wire>(
    wire: &W,
    connection: &mut Connection,
    packet: Packet,
    result: Result<(), CoreError>,
)
    requires
        old(connection).well_formed(),
        call_ensures(Connection::on_datagram::<W>, (connection, packet, wire), result),
    ensures
        old(connection)@.state == ConnectionState::Closed ==> result is Err && final(connection)@
            == old(connection)@,
        packet.connection_id != old(connection)@.id && old(connection)@.state
            != ConnectionState::Closed ==> result == Err::<(), CoreError>(
            CoreError::ConnectionIdMismatch,
        ) && final(connection)@ == old(connection)@,
        final(connection)@.id == old(connection)@.id,
        final(connection)@.role == old(connection)@.role,
{
}

/// Whether a packet has come before.
pub open spec fn came_before(view: ConnectionView, packet: PacketView) -> bool {
    packet.packet_type != PacketType::Retry && exists|i: int|
        0 <= i < view.transport.held.len() && (#[trigger] view.transport.held[i]).start.value
            <= packet.packet_number.value && packet.packet_number.value
            <= view.transport.held[i].end.value
}

/// Frames that are no acknowledgements change nothing when acknowledgements are taken.
proof fn lemma_no_acks<W: Wire>(
    wire: &W,
    before: ConnectionView,
    frames: Seq<FrameView>,
    count: int,
    after: ConnectionView,
    result: Result<(), CoreError>,
)
    requires
        acks_done(wire, before, frames, count, after, result),
        0 <= count <= frames.len(),
        forall|i: int| 0 <= i < frames.len() ==> !(#[trigger] frames[i] is Ack),
    ensures
        after == before,
        result is Ok,
    decreases count,
{
    if count > 0 {
        let (middle, so_far) = choose|middle: ConnectionView, so_far: Result<(), CoreError>|
            #[trigger]
            ack_follows(wire, middle, so_far, frames[count - 1], after, result) && acks_done(
                wire,
                before,
                frames,
                count - 1,
                middle,
                so_far,
            );
        lemma_no_acks(wire, before, frames, count - 1, middle, so_far);
    }
}

/// The frame of a new packet is taken: what it brings about stays when the packet is
/// answered, as far as streams, limits and the state of the connection go.
pub proof fn law_frame_of_a_new_packet_is_taken<W: Wire>(
    wire: &W,
    before: ConnectionView,
    packet: PacketView,
    frame: FrameView,
    after: ConnectionView,
)
    requires
        packet_done(wire, before, packet, after, Ok(())),
        packet.frames == seq![frame],
        !(frame is Ack),
        !came_before(before, packet),
    ensures
        before.state != ConnectionState::Closed,
        packet.connection_id == before.id,
        exists|noted: ConnectionView, taken: ConnectionView|
            {
                &&& #[trigger] frame_done(wire, noted, packet.packet_type, frame, taken, Ok(()))
                &&& noted == (ConnectionView {
                    timers: noted.timers,
                    transport: noted.transport,
                    ..before
                })
                &&& noted.transport.pending == before.transport.pending
                &&& noted.transport.sent == before.transport.sent
                &&& same_limits(taken.streams, after.streams)
                &&& after.state == taken.state
                &&& after.config == taken.config
                &&& after.handshake == taken.handshake
                &&& after.receive == taken.receive
                &&& after.crypto_active == taken.crypto_active
                &&& after.close_error == taken.close_error
                &&& after.next_stream == taken.next_stream
                &&& after.send.connection_max_offset == taken.send.connection_max_offset
            },
{
    lemma_not_repeated(before, packet);
    let (noted, first) = choose|noted: ConnectionView, first: Result<(), CoreError>| #[trigger]
        packet_noted(before, packet, noted, first) && if first is Ok {
            exists|acked: ConnectionView, second: Result<(), CoreError>| #[trigger]
                acks_done(wire, noted, packet.frames, packet.frames.len() as int, acked, second)
                    && if second is Ok {
                    exists|taken: ConnectionView, third: Result<(), CoreError>| #[trigger]
                        frames_taken(wire, before, packet, acked, taken, third) && if third is Ok {
                            answer_given(wire, taken, packet.frames, after, Ok(()))
                        } else {
                            after == taken && Ok::<(), CoreError>(()) == third
                        }
                } else {
                    after == acked && Ok::<(), CoreError>(()) == second
                }
        } else {
            after == noted && Ok::<(), CoreError>(()) == first
        };
    let (acked, second) = choose|acked: ConnectionView, second: Result<(), CoreError>| #[trigger]
        acks_done(wire, noted, packet.frames, packet.frames.len() as int, acked, second)
            && if second is Ok {
            exists|taken: ConnectionView, third: Result<(), CoreError>| #[trigger]
                frames_taken(wire, before, packet, acked, taken, third) && if third is Ok {
                    answer_given(wire, taken, packet.frames, after, Ok(()))
                } else {
                    after == taken && Ok::<(), CoreError>(()) == third
                }
        } else {
            after == acked && Ok::<(), CoreError>(()) == second
        };
    assert(packet.frames[0] == frame);
    lemma_no_acks(wire, noted, packet.frames, packet.frames.len() as int, acked, second);
    let (taken, third) = choose|taken: ConnectionView, third: Result<(), CoreError>| #[trigger]
        frames_taken(wire, before, packet, acked, taken, third) && if third is Ok {
            answer_given(wire, taken, packet.frames, after, Ok(()))
        } else {
            after == taken && Ok::<(), CoreError>(()) == third
        };
    let (middle, so_far) = choose|middle: ConnectionView, so_far: Result<(), CoreError>|
        #[trigger]
        frame_follows(
            wire,
            middle,
            so_far,
            packet.packet_type,
            packet.frames[0],
            taken,
            third,
        ) && frames_done(wire, acked, packet.packet_type, packet.frames, 0, middle, so_far);
    assert(third->Ok_0 == ());
    assert(frame_done(wire, noted, packet.packet_type, frame, taken, Ok(())));
    let asks = choose|asks: bool| #[trigger]
        packet_answered(wire, taken, asks, after, Ok(()));
    let (asked, outcome) = choose|asked: ConnectionView, outcome: Result<(), CoreError>| #[trigger]
        ack_asked(taken, asks, asked, outcome) && if outcome is Ok {
            sent_on(wire, asked, after, Ok(()))
        } else {
            after == asked && Ok::<(), CoreError>(()) == outcome
        };
    law_sending_keeps_the_limits_of_streams(wire, asked, after, Ok(()));
}

proof fn lemma_not_repeated(before: ConnectionView, packet: PacketView)
    requires
        !came_before(before, packet),
    ensures
        !repeated(before, packet),
{
    let held = before.transport.held;
    let number = packet.packet_number.value;
    if ranges_hold(held, number) {
        let i = choose|i: int| 0 <= i < held.len() && (#[trigger] held[i]).holds(number);
        assert(before.transport.held[i].start.value <= number);
    }
}

/// A new packet that raises the limit of a stream does so, whatever else is sent on
/// that account.
pub proof fn law_raised_limit_comes_with_its_packet<W: Wire>(
    wire: &W,
    before: ConnectionView,
    packet: PacketView,
    update: MaxStreamData,
    after: ConnectionView,
)
    requires
        packet_done(wire, before, packet, after, Ok(())),
        packet.frames == seq![FrameView::MaxStreamData(update)],
        !came_before(before, packet),
    ensures
        after.streams.contains_key(update.stream_id.value),
        after.streams[update.stream_id.value].send.max_offset >= update.max_offset,
        after.streams[update.stream_id.value].send.max_offset
            >= before.streams[update.stream_id.value].send.max_offset,
{
    let frame = FrameView::MaxStreamData(update);
    law_frame_of_a_new_packet_is_taken(wire, before, packet, frame, after);
    let (noted, taken) = choose|noted: ConnectionView, taken: ConnectionView|
        {
            &&& #[trigger] frame_done(wire, noted, packet.packet_type, frame, taken, Ok(()))
            &&& noted.streams == before.streams
            &&& same_limits(taken.streams, after.streams)
        };
    assert(taken.streams.dom().contains(update.stream_id.value));
    assert(after.streams.contains_key(update.stream_id.value));
}

/// Frames are taken one after the other: those of a packet are taken as its first
/// ones and then the last one are.
pub proof fn law_frames_are_taken_in_order<W: Wire>(
    wire: &W,
    before: ConnectionView,
    packet_type: PacketType,
    frames: Seq<FrameView>,
    last: FrameView,
    middle: ConnectionView,
    after: ConnectionView,
    result: Result<(), CoreError>,
)
    requires
        frames_done(wire, before, packet_type, frames, frames.len() as int, middle, Ok(())),
        frame_done(wire, middle, packet_type, last, after, result),
    ensures
        frames_done(
            wire,
            before,
            packet_type,
            frames.push(last),
            frames.push(last).len() as int,
            after,
            result,
        ),
{
    let all = frames.push(last);
    lemma_same_frames(
        wire,
        before,
        packet_type,
        frames,
        all,
        frames.len() as int,
        middle,
        Ok(()),
    );
    assert(all[frames.len() as int] == last);
    assert(frame_follows(
        wire,
        middle,
        Ok(()),
        packet_type,
        all[all.len() - 1],
        after,
        result,
    ));
}

proof fn lemma_same_frames<W: Wire>(
    wire: &W,
    before: ConnectionView,
    packet_type: PacketType,
    frames: Seq<FrameView>,
    more: Seq<FrameView>,
    count: int,
    after: ConnectionView,
    result: Result<(), CoreError>,
)
    requires
        frames_done(wire, before, packet_type, frames, count, after, result),
        0 <= count <= frames.len() <= more.len(),
        forall|i: int| 0 <= i < frames.len() ==> #[trigger] more[i] == frames[i],
    ensures
        frames_done(wire, before, packet_type, more, count, after, result),
    decreases count,
{
    if count > 0 {
        let (middle, so_far) = choose|middle: ConnectionView, so_far: Result<(), CoreError>|
            #[trigger]
            frame_follows(
                wire,
                middle,
                so_far,
                packet_type,
                frames[count - 1],
                after,
                result,
            ) && frames_done(wire, before, packet_type, frames, count - 1, middle, so_far);
        lemma_same_frames(
            wire,
            before,
            packet_type,
            frames,
            more,
            count - 1,
            middle,
            so_far,
        );
        assert(more[count - 1] == frames[count - 1]);
        assert(frame_follows(
            wire,
            middle,
            so_far,
            packet_type,
            more[count - 1],
            after,
            result,
        ));
    }
}

/// What is to be told to the outside is told once, in order.
pub proof fn law_output_is_given_once(
    first: &mut Connection,
    outputs: Vec<CoreOutput>,
    second: &mut Connection,
    more: Vec<CoreOutput>,
)
    requires
        old(first).well_formed(),
        call_ensures(Connection::drain_output, (first,), outputs),
        *old(second) == *final(first),
        call_ensures(Connection::drain_output, (second,), more),
    ensures
        outputs@.len() == old(first)@.output.len(),
        forall|i: int|
            0 <= i < outputs@.len() ==> (#[trigger] outputs@[i])@ == old(first)@.output[i],
        more@.len() == 0,
        final(first)@.streams == old(first)@.streams,
        final(first)@.transport == old(first)@.transport,
        final(first)@.state == old(first)@.state,
{
    assert(output_views(outputs@).len() == outputs@.len());
    assert(output_views(more@).len() == more@.len());
    assert forall|i: int| 0 <= i < outputs@.len() implies (#[trigger] outputs@[i])@ == old(
        first,
    )@.output[i] by {
        assert(output_views(outputs@)[i] == outputs@[i]@);
    }
}

/// Settings are taken exactly if a datagram holds a header and its size fits its
/// field, everything that must not be nothing is something, the bounds of the window
/// and of the timeout are in order, the delay of an acknowledgement is within the
/// timeout, the cookie fits, and what keeps the connection alive comes before it
/// counts as idle.
pub proof fn law_usable_settings_are_taken(
    config: &ConnectionConfig,
    result: Result<(), ConnectionConfigError>,
)
    requires
        call_ensures(ConnectionConfig::validate, (config,), result),
    ensures
        result is Ok <==> {
            &&& config.limits.fixed_header_len <= config.max_datagram_size <= 65_535
            &&& config.max_streams > 0
            &&& config.initial_connection_window > 0
            &&& config.initial_stream_window > 0
            &&& config.max_send_buffer > 0
            &&& config.max_receive_buffer > 0
            &&& 0 < config.min_congestion_window <= config.initial_congestion_window
            &&& config.initial_congestion_window <= config.max_congestion_window
            &&& 0 < config.min_rto@ <= config.initial_rto@ <= config.max_rto@
            &&& config.clock_granularity@ > 0
            &&& config.ack_delay@ <= config.max_rto@
            &&& config.idle_timeout@ > 0
            &&& config.handshake_timeout@ > 0
            &&& config.close_timeout@ > 0
            &&& config.fast_loss_threshold > 0
            &&& config.handshake_cookie@.len() <= config.limits.max_cookie_len
            &&& config.keepalive_interval is Some ==> 0 < config.keepalive_interval->0@
                < config.idle_timeout@
        },
{
}

/// The two sides of a connection number their streams apart: what one calls its own
/// the other calls the peer's.
pub proof fn law_sides_number_streams_apart(
    client: u64,
    server: u64,
    client_peer: u64,
    server_peer: u64,
)
    requires
        call_ensures(ConnectionRole::local_stream_parity, (ConnectionRole::Client,), client),
        call_ensures(ConnectionRole::local_stream_parity, (ConnectionRole::Server,), server),
        call_ensures(ConnectionRole::peer_stream_parity, (ConnectionRole::Client,), client_peer),
        call_ensures(ConnectionRole::peer_stream_parity, (ConnectionRole::Server,), server_peer),
    ensures
        client == server_peer,
        server == client_peer,
        client + server == 1,
{
}

} // verus!
