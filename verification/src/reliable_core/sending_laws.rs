//! What a packet that leaves carries, and what sending leaves alone.

use vstd::prelude::*;

use crate::reliable_core::config::ConnectionConfig;
use crate::reliable_core::connection_laws::{lemma_rings, rings_for};
use crate::reliable_core::error::CoreError;
use crate::reliable_core::event::ConnectionState;
use crate::reliable_core::send::{pieces, written, SendView};
use crate::reliable_core::sending::{
    sending_ends, sending_run, sending_step, LayoutAnswer, SendingView,
};
use crate::reliable_core::streams::StreamView;
use crate::reliable_core::timer::TimerEvent;
use crate::reliable_core::transition::{identity_of, sending_side, sent_on, ConnectionView};
use crate::reliable_core::transport::FlushIdentity;
use crate::wire::{FrameView, PacketType, Wire};

verus! {

/// What sending never changes of the streams: which there are, what they have
/// received, how far they may send, what was written to them.
pub open spec fn same_limits(before: Map<u64, StreamView>, after: Map<u64, StreamView>) -> bool {
    &&& before.dom() == after.dom()
    &&& forall|id: u64| #[trigger]
        after.contains_key(id) ==> {
            &&& after[id].id == before[id].id
            &&& after[id].state == before[id].state
            &&& after[id].bidirectional == before[id].bidirectional
            &&& after[id].recv == before[id].recv
            &&& after[id].recv_flow == before[id].recv_flow
            &&& after[id].send.max_offset == before[id].send.max_offset
            &&& after[id].send.next_offset == before[id].send.next_offset
            &&& after[id].send.fin_requested == before[id].send.fin_requested
            &&& after[id].send.stream_id == before[id].send.stream_id
        }
}

proof fn lemma_step_keeps_limits<W: Wire>(
    wire: &W,
    before: SendingView,
    answer: LayoutAnswer,
    identity: FlushIdentity,
    config: ConnectionConfig,
    after: SendingView,
    result: Result<bool, CoreError>,
)
    requires
        sending_step(wire, before, answer, identity, config, after, result),
    ensures
        same_limits(before.streams, after.streams),
{
    assert(after.streams.dom() =~= before.streams.dom());
}

proof fn lemma_run_keeps_limits<W: Wire>(
    wire: &W,
    states: Seq<SendingView>,
    answers: Seq<LayoutAnswer>,
    identity: FlushIdentity,
    config: ConnectionConfig,
    count: int,
)
    requires
        sending_run(wire, states, answers, identity, config),
        0 <= count <= answers.len(),
    ensures
        same_limits(states[0].streams, states[count].streams),
    decreases count,
{
    if count > 0 {
        lemma_run_keeps_limits(wire, states, answers, identity, config, count - 1);
        let answer = answers[count - 1];
        assert(sending_step(
            wire,
            states[count - 1],
            answer,
            identity,
            config,
            states[count],
            Ok(true),
        ));
        lemma_step_keeps_limits(
            wire,
            states[count - 1],
            answer,
            identity,
            config,
            states[count],
            Ok(true),
        );
    }
}

/// Sending changes no limit of a stream, nothing of what was received, and not how
/// much was written.
pub proof fn law_sending_keeps_the_limits_of_streams<W: Wire>(
    wire: &W,
    before: ConnectionView,
    after: ConnectionView,
    result: Result<(), CoreError>,
)
    requires
        sent_on(wire, before, after, result),
    ensures
        same_limits(before.streams, after.streams),
{
    let first = sending_side(before);
    let last = sending_side(after);
    let identity = identity_of(before);
    let config = before.config;
    let (states, answers) = choose|states: Seq<SendingView>, answers: Seq<LayoutAnswer>| #[trigger]
        sending_run(wire, states, answers, identity, config) && states[0] == first && sending_ends(
            wire,
            states.last(),
            identity,
            config,
            last,
            result,
        );
    lemma_run_keeps_limits(wire, states, answers, identity, config, answers.len() as int);
    let (answer, outcome) = choose|answer: LayoutAnswer, outcome: Result<bool, CoreError>|
        #[trigger]
        sending_step(wire, states.last(), answer, identity, config, last, outcome);
    lemma_step_keeps_limits(wire, states.last(), answer, identity, config, last, outcome);
}

/// The type of packet that carries a frame: a hello of a client goes in the first
/// packet, the answer to it and its acknowledgement in packets of the handshake, a
/// close in one of its own, and everything else in packets of the handshake while
/// that goes on, and in packets of data from then on.
pub open spec fn carries(packet_type: PacketType, frame: FrameView, state: ConnectionState) -> bool {
    &&& frame is ClientHello <==> packet_type == PacketType::Initial
    &&& frame is ServerHello || frame is HandshakeAck ==> packet_type == PacketType::Handshake
    &&& frame is ConnectionClose <==> packet_type == PacketType::Close
    &&& !(frame is ClientHello || frame is ServerHello || frame is HandshakeAck
        || frame is ConnectionClose || frame is Ack) ==> packet_type == if state
        == ConnectionState::Handshaking {
        PacketType::Handshake
    } else {
        PacketType::Data
    }
}

/// Each step that goes on sends one packet with one frame, with the next number and
/// the name of the connection, and of the type that carries such a frame.
pub proof fn law_packet_carries_one_frame<W: Wire>(
    wire: &W,
    before: SendingView,
    answer: LayoutAnswer,
    identity: FlushIdentity,
    config: ConnectionConfig,
    after: SendingView,
)
    requires
        sending_step(wire, before, answer, identity, config, after, Ok(true)),
    ensures
        after.output.len() == before.output.len() + 1,
        after.output.drop_last() == before.output,
        after.output.last() is Send,
        ({
            let packet = after.output.last()->Send_0;
            &&& packet.frames.len() == 1
            &&& packet.packet_number.value == before.transport.next_packet_number
            &&& packet.connection_id == identity.connection_id
            &&& carries(packet.packet_type, packet.frames[0], identity.state)
            &&& packet.flags.ack_eliciting == answer.ack_eliciting
        }),
        after.transport.next_packet_number == before.transport.next_packet_number + 1,
{
    assert(after.output.drop_last() =~= before.output);
}

/// An acknowledgement that is ready leaves first. It names the highest packet that
/// came and all that are remembered, and is then no longer owed. Frames that wait
/// leave in their order, and only after them the pieces of streams, those of the
/// stream with the lowest number first.
pub proof fn law_acknowledgements_leave_first<W: Wire>(
    wire: &W,
    before: SendingView,
    answer: LayoutAnswer,
    identity: FlushIdentity,
    config: ConnectionConfig,
    after: SendingView,
)
    requires
        sending_step(wire, before, answer, identity, config, after, Ok(true)),
    ensures
        ({
            let frame = after.output.last()->Send_0.frames[0];
            let owed = before.transport.ack_pending && before.transport.ack_ready;
            &&& owed ==> {
                &&& frame is Ack
                &&& after.output.last()->Send_0.packet_type == PacketType::Data
                &&& frame->Ack_0.ranges == before.transport.held
                &&& before.transport.held.len() > 0
                &&& frame->Ack_0.largest == before.transport.held[0].end.value
                &&& frame->Ack_0.ack_delay <= config.ack_delay@
                &&& before.transport.largest_at is Some ==> {
                    let since = identity.now@ - before.transport.largest_at->0@;
                    &&& 0 <= since <= config.ack_delay@ ==> frame->Ack_0.ack_delay == since
                    &&& since > config.ack_delay@ ==> frame->Ack_0.ack_delay == config.ack_delay@
                }
                &&& !after.transport.ack_pending
                &&& !after.transport.ack_ready
                &&& after.timers.ack is None
                &&& after.transport.pending == before.transport.pending
                &&& after.streams == before.streams
            }
            &&& !owed && before.transport.pending.len() > 0 ==> {
                &&& frame == before.transport.pending[0].frame
                &&& after.transport.pending == before.transport.pending.drop_first()
                &&& after.streams == before.streams
            }
            &&& !owed && before.transport.pending.len() == 0 ==> {
                &&& frame is StreamData
                &&& before.streams.contains_key(frame->StreamData_0.stream_id.value)
                &&& ({
                    let id = frame->StreamData_0.stream_id.value;
                    let queue = before.streams[id].send.queue;
                    &&& queue.len() > 0
                    &&& frame->StreamData_0.offset == queue[0].offset
                    &&& frame->StreamData_0.data == queue[0].data
                    &&& frame->StreamData_0.fin == queue[0].fin
                    &&& after.streams[id].send.queue == queue.drop_first()
                    &&& forall|other: u64| #[trigger]
                        before.streams.contains_key(other) && other < id
                            && before.streams[other].send.queue.len() > 0 ==> {
                            &&& before.streams[other].send.queue[0].retransmit_count == 0
                            &&& before.streams[other].send.queue[0].offset
                                + before.streams[other].send.queue[0].data.len()
                                > before.streams[other].send.max_offset || before.streams[other].send.max_offset
                                == u64::MAX
                        }
                })
            }
        }),
{
    let owed = before.transport.ack_pending && before.transport.ack_ready;
    if !owed && before.transport.pending.len() == 0 {
        let id = after.output.last()->Send_0.frames[0]->StreamData_0.stream_id.value;
        assert(after.streams[id].send.queue =~= before.streams[id].send.queue.drop_first());
    } else if !owed {
        assert(after.transport.pending =~= before.transport.pending.drop_first());
    }
}

/// Bytes that leave for the first time end within the limit of their stream and,
/// with all that left before, within that of the connection. They are counted;
/// bytes that leave again are not.
pub proof fn law_new_bytes_keep_to_both_limits<W: Wire>(
    wire: &W,
    before: SendingView,
    answer: LayoutAnswer,
    identity: FlushIdentity,
    config: ConnectionConfig,
    after: SendingView,
)
    requires
        sending_step(wire, before, answer, identity, config, after, Ok(true)),
        !(before.transport.ack_pending && before.transport.ack_ready),
        before.transport.pending.len() == 0,
    ensures
        ({
            let data = after.output.last()->Send_0.frames[0]->StreamData_0;
            let stream = before.streams[data.stream_id.value];
            if stream.send.queue[0].retransmit_count == 0 {
                &&& data.offset + data.data.len() <= stream.send.max_offset || stream.send.max_offset
                    == u64::MAX
                &&& before.send.connection_sent_offset + data.data.len()
                    <= before.send.connection_max_offset
                &&& after.send.connection_sent_offset == before.send.connection_sent_offset
                    + data.data.len()
            } else {
                after.send.connection_sent_offset == before.send.connection_sent_offset
            }
        }),
        after.send.connection_max_offset == before.send.connection_max_offset,
{
}

/// A packet that asks for an acknowledgement, other than one of the handshake, is
/// remembered as it left: when, with what frame, how often before. It counts as in
/// flight, and a timer rings for it once the timeout is over. One that asks for none
/// is not remembered, nor is an acknowledgement.
pub proof fn law_sent_packet_is_watched<W: Wire>(
    wire: &W,
    before: SendingView,
    answer: LayoutAnswer,
    identity: FlushIdentity,
    config: ConnectionConfig,
    after: SendingView,
)
    requires
        sending_step(wire, before, answer, identity, config, after, Ok(true)),
        !before.transport.sent.contains_key(before.transport.next_packet_number),
    ensures
        ({
            let packet = after.output.last()->Send_0;
            let number = packet.packet_number.value;
            let frame = packet.frames[0];
            let watched = answer.ack_eliciting && !(before.transport.ack_pending
                && before.transport.ack_ready) && !(frame is ClientHello)
                && !(frame is ServerHello) && !(frame is HandshakeAck);
            &&& after.transport.sent.contains_key(number) <==> watched
            &&& watched ==> {
                let kept = after.transport.sent[number];
                &&& kept.sent_at == identity.now
                &&& kept.frame.frame == frame
                &&& kept.generation != before.transport.generation
                &&& kept.generation == after.transport.generation
                &&& kept.packet_number == packet.packet_number
                &&& before.transport.congestion.bytes_in_flight + kept.encoded_len <= u64::MAX
                    ==> after.transport.congestion.bytes_in_flight
                    == before.transport.congestion.bytes_in_flight + kept.encoded_len
                &&& after.transport.congestion.bytes_in_flight <= before.transport.congestion.cwnd
                &&& rings_for(
                    before.timers,
                    after.timers,
                    kept.timer_id,
                    TimerEvent::Retransmit {
                        packet_number: packet.packet_number,
                        generation: kept.generation,
                    },
                    before.transport.rtt.rto,
                )
            }
            &&& !watched ==> after.transport.sent == before.transport.sent
                && after.transport.congestion == before.transport.congestion
            &&& forall|other: u64| #[trigger]
                before.transport.sent.contains_key(other) ==> after.transport.sent.contains_key(
                    other,
                ) && after.transport.sent[other] == before.transport.sent[other]
        }),
{
    let packet = after.output.last()->Send_0;
    let number = packet.packet_number.value;
    let frame = packet.frames[0];
    if answer.ack_eliciting && !(before.transport.ack_pending && before.transport.ack_ready)
        && !(frame is ClientHello) && !(frame is ServerHello) && !(frame is HandshakeAck) {
        let kept = after.transport.sent[number];
        lemma_rings(
            before.timers,
            after.timers,
            kept.timer_id,
            TimerEvent::Retransmit {
                packet_number: packet.packet_number,
                generation: kept.generation,
            },
            before.transport.rtt.rto,
        );
    }
}

/// No datagram is larger than allowed: with the seal, where there is one.
pub proof fn law_datagrams_are_small_enough<W: Wire>(
    wire: &W,
    before: SendingView,
    answer: LayoutAnswer,
    identity: FlushIdentity,
    config: ConnectionConfig,
    after: SendingView,
)
    requires
        sending_step(wire, before, answer, identity, config, after, Ok(true)),
    ensures
        answer.encoded is Ok,
        answer.encoded->Ok_0 <= config.max_datagram_size,
        identity.encrypt_data && (after.output.last()->Send_0.packet_type == PacketType::Data
            || after.output.last()->Send_0.packet_type == PacketType::Close)
            ==> answer.encoded->Ok_0 + config.limits.seal_len <= config.max_datagram_size,
{
}

/// The end of what is written is marked once, on the last piece and where the bytes
/// end; what is not the end is not marked. What waited before is sent before.
pub proof fn law_end_is_marked_on_the_last_piece(
    view: SendView,
    data: Seq<u8>,
    fin: bool,
    max_chunk: usize,
)
    requires
        view.next_offset + data.len() <= u64::MAX,
        view.queued_bytes + data.len() <= usize::MAX,
    ensures
        ({
            let after = written(view, data, fin, max_chunk);
            let count = view.queue.len() as int;
            let last = after.queue.last();
            &&& after.queue.len() >= count
            &&& forall|i: int|
                0 <= i < count && i < after.queue.len() - 1 ==> #[trigger] after.queue[i]
                    == view.queue[i]
            &&& fin ==> {
                &&& after.queue.len() > 0
                &&& last.fin
                &&& after.queue.len() > count
                &&& last.offset + last.data.len() == view.next_offset + data.len()
            }
            &&& forall|i: int|
                count <= i < after.queue.len() - 1 ==> !(#[trigger] after.queue[i]).fin
            &&& !fin && after.queue.len() > count ==> !last.fin
            &&& after.fin_requested == (view.fin_requested || fin)
            &&& after.queued_bytes == view.queued_bytes + data.len()
        }),
{
    let size: nat = if max_chunk >= 1 {
        max_chunk as nat
    } else {
        1
    };
    lemma_pieces_are_unmarked(data, view.next_offset as nat, size);
    let new = pieces(data, view.next_offset as nat, size);
    let queued = view.queue + new;
    assert(view.queue.len() + new.len() == queued.len());
    if data.len() > 0 {
        assert(queued.last() == new.last());
    }
}

/// Pieces are not marked as the end, and the last one ends where the bytes do.
proof fn lemma_pieces_are_unmarked(data: Seq<u8>, offset: nat, size: nat)
    requires
        size > 0,
        offset + data.len() <= u64::MAX,
    ensures
        forall|i: int|
            0 <= i < pieces(data, offset, size).len() ==> !(#[trigger] pieces(
                data,
                offset,
                size,
            )[i]).fin,
        data.len() > 0 ==> pieces(data, offset, size).len() > 0 && pieces(
            data,
            offset,
            size,
        ).last().offset + pieces(data, offset, size).last().data.len() == offset + data.len(),
        data.len() == 0 ==> pieces(data, offset, size).len() == 0,
    decreases data.len(),
{
    if data.len() > 0 {
        let length = if size <= data.len() {
            size as int
        } else {
            data.len() as int
        };
        let rest = data.subrange(length, data.len() as int);
        let more = pieces(rest, (offset + length) as nat, size);
        lemma_pieces_are_unmarked(rest, (offset + length) as nat, size);
        let all = pieces(data, offset, size);
        assert forall|i: int| 0 <= i < all.len() implies !(#[trigger] all[i]).fin by {
            if i > 0 {
                assert(all[i] == more[i - 1]);
            }
        }
        if more.len() > 0 {
            assert(all.last() == more.last());
        }
    }
}

} // verus!
