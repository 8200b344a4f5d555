//! What the frames of the other side bring about.

use vstd::prelude::*;
use vstd::set_lib::{lemma_int_range, lemma_len_subset, set_int_range};

use crate::reliable_core::config::ConnectionRole;
use crate::reliable_core::error::CoreError;
use crate::reliable_core::event::{ConnectionState, OutputView};
use crate::reliable_core::laws::{
    agrees, has_come, is_part, law_only_new_bytes_are_buffered,
    law_received_bytes_are_the_sent_ones,
};
use crate::reliable_core::receive::{delivered, lemma_missing_bounded, merged, ReceiveView};
use crate::reliable_core::send::{PendingView, QueuedView};
use crate::reliable_core::stream::StreamState;
use crate::reliable_core::streams::{sendable, StreamView};
use crate::reliable_core::transition::{
    frame_done, packet_done, read_done, stream_data_done, stream_read, ConnectionView,
};
use crate::reliable_core::transport::{stream_blocked, CandidateView};
use crate::wire::{
    FrameView, MaxData, MaxStreamData, PacketType, PacketView, Ping, ResetStream, StreamDataView,
    StreamId, StreamOpen, Wire,
};

verus! {

/// Whether frames of data are taken: the connection is established, and they come in
/// a packet of data.
pub open spec fn is_open_for_data(view: ConnectionView, packet_type: PacketType) -> bool {
    view.state == ConnectionState::Established && packet_type == PacketType::Data
}

/// A frame of data that comes at the wrong time, or in the wrong packet, is refused
/// and changes nothing.
pub proof fn law_data_frames_need_an_established_connection<W: Wire>(
    wire: &W,
    before: ConnectionView,
    packet_type: PacketType,
    frame: FrameView,
    after: ConnectionView,
    result: Result<(), CoreError>,
)
    requires
        frame_done(wire, before, packet_type, frame, after, result),
        before.state != ConnectionState::Established || packet_type != PacketType::Data,
        frame is StreamOpen || frame is StreamData || frame is ResetStream
            || frame is MaxStreamData || frame is MaxData || frame is Ping,
    ensures
        result == Err::<(), CoreError>(CoreError::InvalidPacketType),
        after == before,
{
}

/// A frame that raises the limit of a stream lets this side send up to that limit:
/// the limit is never less afterwards than the frame says, nor less than it was, and
/// no more than one of the two. A piece that ends within it may be sent. Nothing
/// else of the connection changes.
pub proof fn law_raised_stream_limit_lets_the_stream_go_on<W: Wire>(
    wire: &W,
    before: ConnectionView,
    packet_type: PacketType,
    update: MaxStreamData,
    after: ConnectionView,
    result: Result<(), CoreError>,
)
    requires
        frame_done(wire, before, packet_type, FrameView::MaxStreamData(update), after, result),
        is_open_for_data(before, packet_type),
    ensures
        result is Ok <==> before.streams.contains_key(update.stream_id.value),
        result is Err ==> after == before && result == Err::<(), CoreError>(
            (CoreError::UnknownStream { stream_id: update.stream_id }),
        ),
        result is Ok ==> ({
            let id = update.stream_id.value;
            let old_send = before.streams[id].send;
            let new_send = after.streams[id].send;
            &&& after.streams.dom() == before.streams.dom()
            &&& new_send.max_offset >= update.max_offset
            &&& new_send.max_offset >= old_send.max_offset
            &&& new_send.max_offset == update.max_offset || new_send.max_offset
                == old_send.max_offset
            &&& new_send.queue == old_send.queue
            &&& new_send.next_offset == old_send.next_offset
            &&& new_send.fin_requested == old_send.fin_requested
            &&& after.streams[id].recv == before.streams[id].recv
            &&& after.streams[id].state == before.streams[id].state
            &&& new_send.queue.len() > 0 && new_send.queue[0].offset + new_send.queue[0].data.len()
                <= update.max_offset ==> sendable(after.streams[id]) == Some(new_send.queue[0])
            &&& forall|other: u64| #[trigger]
                before.streams.contains_key(other) && other != id ==> after.streams[other]
                    == before.streams[other]
            &&& after.transport == before.transport
            &&& after.send == before.send
            &&& after.receive == before.receive
            &&& after.output == before.output
            &&& after.state == before.state
            &&& after.timers == before.timers
        }),
{
    if result is Ok {
        assert(after.streams.dom() =~= before.streams.dom());
    }
}

/// A frame that raises the limit of the connection lets this side send up to that
/// limit on all streams together, and changes nothing else.
pub proof fn law_raised_connection_limit_lets_data_go_on<W: Wire>(
    wire: &W,
    before: ConnectionView,
    packet_type: PacketType,
    update: MaxData,
    after: ConnectionView,
    result: Result<(), CoreError>,
    stream_id: StreamId,
    piece: PendingView,
)
    requires
        frame_done(wire, before, packet_type, FrameView::MaxData(update), after, result),
        is_open_for_data(before, packet_type),
    ensures
        result is Ok,
        after.send.connection_max_offset >= update.max_offset,
        after.send.connection_max_offset >= before.send.connection_max_offset,
        after.send.connection_max_offset == update.max_offset || after.send.connection_max_offset
            == before.send.connection_max_offset,
        after.send.connection_sent_offset == before.send.connection_sent_offset,
        before.send.connection_sent_offset + piece.data.len() <= update.max_offset
            ==> !stream_blocked(
            CandidateView::Frame(
                QueuedView {
                    frame: FrameView::StreamData(
                        StreamDataView {
                            stream_id,
                            offset: piece.offset,
                            fin: piece.fin,
                            data: piece.data,
                        },
                    ),
                    retransmit_count: piece.retransmit_count,
                },
            ),
            after.send,
        ),
        after.streams == before.streams,
        after.transport == before.transport,
        after.receive == before.receive,
        after.output == before.output,
        after.state == before.state,
        after.timers == before.timers,
{
}

/// A ping is answered: a pong with its number waits to be sent behind what waited
/// before, and nothing else changes.
pub proof fn law_ping_is_answered_with_its_number<W: Wire>(
    wire: &W,
    before: ConnectionView,
    packet_type: PacketType,
    ping: Ping,
    after: ConnectionView,
    result: Result<(), CoreError>,
)
    requires
        frame_done(wire, before, packet_type, FrameView::Ping(ping), after, result),
        is_open_for_data(before, packet_type),
    ensures
        result is Ok,
        after.transport.pending.len() == before.transport.pending.len() + 1,
        after.transport.pending.last().frame matches FrameView::Pong(pong) && pong.nonce
            == ping.nonce,
        after.transport.pending.drop_last() == before.transport.pending,
        after.streams == before.streams,
        after.state == before.state,
        after.output == before.output,
        after.send == before.send,
        after.receive == before.receive,
{
    assert(after.transport.pending.drop_last() =~= before.transport.pending);
}

/// A stream that the other side ends by an error is ended so on this side: it is
/// announced, and every read from then on gives that error. No other stream is
/// touched.
pub proof fn law_reset_stream_gives_its_error_to_readers<W: Wire>(
    wire: &W,
    before: ConnectionView,
    packet_type: PacketType,
    reset: ResetStream,
    after: ConnectionView,
    result: Result<(), CoreError>,
    max_len: usize,
    later: ConnectionView,
    read: Result<(Seq<u8>, bool), CoreError>,
)
    requires
        frame_done(wire, before, packet_type, FrameView::ResetStream(reset), after, result),
        is_open_for_data(before, packet_type),
        read_done(wire, after, reset.stream_id, max_len, later, read),
    ensures
        result is Ok <==> before.streams.contains_key(reset.stream_id.value),
        result is Err ==> after == before,
        result is Ok ==> {
            &&& read == Err::<(Seq<u8>, bool), CoreError>(
                (CoreError::StreamReset {
                    stream_id: reset.stream_id,
                    error_code: reset.error_code,
                }),
            )
            &&& after.output == before.output.push(
                OutputView::StreamReset {
                    stream_id: reset.stream_id,
                    error_code: reset.error_code,
                },
            )
            &&& forall|other: u64| #[trigger]
                before.streams.contains_key(other) && other != reset.stream_id.value
                    ==> after.streams[other] == before.streams[other]
        },
{
}

/// Once the other side has ended the connection it is over: no timer is left, the end
/// is announced last with its reason, and every later packet is refused.
pub proof fn law_closed_connection_takes_no_more_packets<W: Wire>(
    wire: &W,
    before: ConnectionView,
    frame: FrameView,
    after: ConnectionView,
    result: Result<(), CoreError>,
    packet: PacketView,
    later: ConnectionView,
    refused: Result<(), CoreError>,
)
    requires
        frame is ConnectionClose,
        frame_done(wire, before, PacketType::Close, frame, after, result),
        packet_done(wire, after, packet, later, refused),
    ensures
        result is Ok,
        after.close_error == Some(frame->ConnectionClose_error_code),
        forall|key: u64| !#[trigger] after.timers.timers.contains_key(key),
        after.output.len() > before.output.len(),
        after.output.last() == (OutputView::ConnectionClosed {
            error_code: frame->ConnectionClose_error_code,
        }),
        after.streams == before.streams,
        refused is Err,
        later == after,
{
}

/// A stream that the other side opens is there afterwards: it takes data at once, can
/// be written up to the window that the other side gives, and is announced. A number
/// of this side's own is refused, and so is one stream more than allowed.
pub proof fn law_opened_stream_is_there<W: Wire>(
    wire: &W,
    before: ConnectionView,
    packet_type: PacketType,
    open: StreamOpen,
    after: ConnectionView,
    result: Result<(), CoreError>,
)
    requires
        frame_done(wire, before, packet_type, FrameView::StreamOpen(open), after, result),
        is_open_for_data(before, packet_type),
        !before.streams.contains_key(open.stream_id.value),
    ensures
        result is Ok <==> {
            &&& (open.stream_id.value % 2 == 0) == (before.role == ConnectionRole::Server)
            &&& before.streams.dom().len() < before.config.max_streams
            &&& before.streams.dom().len() < before.handshake.peer_max_streams
        },
        result is Err ==> after == before,
        result is Ok ==> {
            let stream = after.streams[open.stream_id.value];
            &&& after.streams.contains_key(open.stream_id.value)
            &&& stream.id == open.stream_id
            &&& stream.state == StreamState::Open
            &&& stream.bidirectional == open.bidirectional
            &&& stream.send.max_offset == open.initial_receive_window
            &&& stream.send.next_offset == 0
            &&& stream.send.queue.len() == 0
            &&& !stream.send.fin_requested
            &&& stream.recv.next_offset == 0
            &&& stream.recv.ready.len() == 0
            &&& stream.recv.final_offset is None
            &&& stream.recv.max_offset == before.config.initial_stream_window
            &&& after.output == before.output.push(OutputView::StreamOpened(open.stream_id))
            &&& forall|other: u64|
                other != open.stream_id.value ==> (#[trigger] after.streams.contains_key(other)
                    == before.streams.contains_key(other)) && after.streams[other]
                    == before.streams[other]
        },
{
}

/// Bytes of a stream that are taken are part of what this side can read: what was
/// received before is kept, the bytes of the frame have come, each where it belongs,
/// and nothing else has. The end of the stream is where the frame says that it is.
pub proof fn law_bytes_of_a_frame_have_come<W: Wire>(
    wire: &W,
    before: ConnectionView,
    packet_type: PacketType,
    data: StreamDataView,
    after: ConnectionView,
    sent: Seq<u8>,
)
    requires
        frame_done(wire, before, packet_type, FrameView::StreamData(data), after, Ok(())),
        before.streams[data.stream_id.value].state == StreamState::Open,
        agrees(before.streams[data.stream_id.value].recv, sent),
        is_part(data.offset, data.data, sent),
    ensures
        is_open_for_data(before, packet_type),
        before.streams.contains_key(data.stream_id.value),
        ({
            let old_recv = before.streams[data.stream_id.value].recv;
            let new_recv = after.streams[data.stream_id.value].recv;
            &&& agrees(new_recv, sent)
            &&& forall|at: int| #[trigger]
                has_come(new_recv, at) <==> has_come(old_recv, at) || data.offset <= at
                    < data.offset + data.data.len()
            &&& data.fin ==> new_recv.final_offset == Some(
                (data.offset + data.data.len()) as u64,
            )
            &&& !data.fin ==> new_recv.final_offset == old_recv.final_offset
            &&& data.offset + data.data.len() <= old_recv.max_offset
        }),
        after.streams[data.stream_id.value].recv.ready.len() > 0 ==> after.output
            == before.output.push(OutputView::StreamReadable(data.stream_id)),
        after.receive.unique_received <= after.receive.max_offset,
        after.receive.unique_received >= before.receive.unique_received,
        after.streams[data.stream_id.value].send == before.streams[data.stream_id.value].send,
{
    let id = data.stream_id.value;
    law_received_bytes_are_the_sent_ones(
        before.streams[id].recv,
        data.offset,
        data.data,
        after.streams[id].recv,
        sent,
    );
}

/// Bytes beyond the limit of a stream are never taken, nor bytes behind its end, nor
/// another end.
pub proof fn law_bytes_beyond_a_limit_are_refused(
    before: ConnectionView,
    packet_type: PacketType,
    data: StreamDataView,
    after: ConnectionView,
    result: Result<(), CoreError>,
)
    requires
        stream_data_done(before, packet_type, data, after, result),
        before.streams.contains_key(data.stream_id.value),
        before.streams[data.stream_id.value].state == StreamState::Open,
        ({
            let recv = before.streams[data.stream_id.value].recv;
            let end = data.offset + data.data.len();
            ||| end > recv.max_offset
            ||| recv.final_offset matches Some(known) && (end > known || (data.fin && end
                != known))
        }),
    ensures
        result is Err,
        after == before,
{
}

/// What a read tells the other side it will keep to itself: when the limit of a stream
/// rises, the frame that announces it names this stream and the limit up to which
/// bytes are taken from now on, which is more than before.
pub proof fn law_announced_limit_is_kept(
    before: ConnectionView,
    stream_id: StreamId,
    stream: StreamView,
    count: nat,
    after: ConnectionView,
)
    requires
        stream_read(before, stream_id, stream, count, after),
        before.streams.contains_key(stream_id.value),
    ensures
        after.streams[stream_id.value] == stream,
        ({
            let old_limit = before.streams[stream_id.value].recv_flow.advertised_offset;
            let new_limit = stream.recv_flow.advertised_offset;
            if new_limit == old_limit {
                after.transport.pending == before.transport.pending
            } else {
                &&& after.transport.pending.len() == before.transport.pending.len() + 1
                &&& after.transport.pending.last().frame matches FrameView::MaxStreamData(update)
                    && update.stream_id == stream_id && update.max_offset == new_limit
            }
        }),
        after.receive.consumed >= before.receive.consumed,
        before.receive.consumed + count <= u64::MAX ==> after.receive.consumed
            == before.receive.consumed + count,
        after.receive.advertised_offset >= before.receive.advertised_offset,
        after.receive.max_offset == before.receive.max_offset || after.receive.max_offset
            == after.receive.advertised_offset,
{
}

/// Whether what waits to be put in order comes after the next byte and is finite.
pub open spec fn is_waiting(recv: ReceiveView) -> bool {
    &&& recv.pending.dom().finite()
    &&& forall|at: int| #[trigger] recv.pending.contains_key(at) ==> recv.next_offset < at
}

/// Bytes for an open stream that keep within every limit are taken: within those of
/// the stream and of the connection, not behind the end, and with room for them.
pub proof fn law_bytes_within_all_limits_are_taken<W: Wire>(
    wire: &W,
    before: ConnectionView,
    packet_type: PacketType,
    data: StreamDataView,
    after: ConnectionView,
    result: Result<(), CoreError>,
)
    requires
        frame_done(wire, before, packet_type, FrameView::StreamData(data), after, result),
        is_open_for_data(before, packet_type),
        before.streams.contains_key(data.stream_id.value),
        before.streams[data.stream_id.value].state == StreamState::Open,
        is_waiting(before.streams[data.stream_id.value].recv),
        ({
            let recv = before.streams[data.stream_id.value].recv;
            let length = data.data.len();
            let end = data.offset + length;
            &&& end <= recv.max_offset
            &&& recv.ready.len() + recv.pending.dom().len() + length
                <= before.config.max_receive_buffer
            &&& before.receive.unique_received + length <= before.receive.max_offset
            &&& recv.final_offset is None || end == recv.final_offset->0 || (!data.fin && end
                < recv.final_offset->0)
        }),
    ensures
        result is Ok,
        is_waiting(after.streams[data.stream_id.value].recv),
{
    let id = data.stream_id.value;
    let recv = before.streams[id].recv;
    let from = if data.offset >= recv.next_offset {
        data.offset as int
    } else {
        recv.next_offset as int
    };
    let to = data.offset + data.data.len();
    lemma_missing_bounded(recv.pending, from, to);
    if delivered(recv, merged(recv, data.offset, data.data), after.streams[id].recv) {
        law_only_new_bytes_are_buffered(recv, data.offset, data.data, after.streams[id].recv);
        lemma_still_waiting(recv, data.offset, data.data, after.streams[id].recv);
    }
}

proof fn lemma_still_waiting(
    before: ReceiveView,
    offset: u64,
    data: Seq<u8>,
    after: ReceiveView,
)
    requires
        is_waiting(before),
        delivered(before, merged(before, offset, data), after),
    ensures
        is_waiting(after),
{
    let bytes = merged(before, offset, data);
    let span = set_int_range(offset as int, offset + data.len());
    lemma_int_range(offset as int, offset + data.len());
    assert(bytes.dom().subset_of(before.pending.dom() + span));
    lemma_len_subset(bytes.dom(), before.pending.dom() + span);
    assert(after.pending.dom().subset_of(bytes.dom()));
    lemma_len_subset(after.pending.dom(), bytes.dom());
    assert forall|at: int| #[trigger] after.pending.contains_key(at) implies after.next_offset
        < at by {
        assert(bytes.contains_key(at));
        assert(!bytes.contains_key(after.next_offset as int));
    }
}

/// What counts towards the limit of the connection are the bytes that had not come
/// before: as many as are kept more.
pub proof fn law_only_new_bytes_count<W: Wire>(
    wire: &W,
    before: ConnectionView,
    packet_type: PacketType,
    data: StreamDataView,
    after: ConnectionView,
)
    requires
        frame_done(wire, before, packet_type, FrameView::StreamData(data), after, Ok(())),
        before.streams[data.stream_id.value].state == StreamState::Open,
        is_waiting(before.streams[data.stream_id.value].recv),
    ensures
        ({
            let old_recv = before.streams[data.stream_id.value].recv;
            let new_recv = after.streams[data.stream_id.value].recv;
            let was = old_recv.ready.len() + old_recv.pending.dom().len();
            let is = new_recv.ready.len() + new_recv.pending.dom().len();
            &&& after.receive.unique_received - before.receive.unique_received == is - was
            &&& before.config.max_receive_buffer < usize::MAX ==> is
                <= before.config.max_receive_buffer
            &&& is - was <= data.data.len()
        }),
        after.receive.max_offset == before.receive.max_offset,
{
    let id = data.stream_id.value;
    let recv = before.streams[id].recv;
    let from = if data.offset >= recv.next_offset {
        data.offset as int
    } else {
        recv.next_offset as int
    };
    lemma_missing_bounded(recv.pending, from, data.offset + data.data.len());
    law_only_new_bytes_are_buffered(recv, data.offset, data.data, after.streams[id].recv);
}

/// A stream whose last byte has come and was read is finished, and that is told.
/// Until then it is open.
pub proof fn law_stream_is_finished_at_its_end<W: Wire>(
    wire: &W,
    before: ConnectionView,
    packet_type: PacketType,
    data: StreamDataView,
    after: ConnectionView,
)
    requires
        frame_done(wire, before, packet_type, FrameView::StreamData(data), after, Ok(())),
        before.streams[data.stream_id.value].state == StreamState::Open,
    ensures
        ({
            let stream = after.streams[data.stream_id.value];
            let ended = stream.recv.final_offset == Some(stream.recv.next_offset)
                && stream.recv.ready.len() == 0;
            &&& ended ==> stream.state == StreamState::Finished && after.output
                == before.output.push(OutputView::StreamFinished(data.stream_id))
            &&& !ended ==> stream.state == StreamState::Open
            &&& !ended && stream.recv.ready.len() == 0 ==> after.output == before.output
        }),
{
}

/// An answer to a question whether this side is there changes nothing.
pub proof fn law_pong_changes_nothing<W: Wire>(
    wire: &W,
    before: ConnectionView,
    packet_type: PacketType,
    frame: FrameView,
    after: ConnectionView,
    result: Result<(), CoreError>,
)
    requires
        frame is Pong,
        frame_done(wire, before, packet_type, frame, after, result),
    ensures
        result is Ok,
        after == before,
{
}

/// A stream that is opened again as it was is there still; with another window it is
/// refused. Neither changes anything.
pub proof fn law_stream_is_opened_once<W: Wire>(
    wire: &W,
    before: ConnectionView,
    packet_type: PacketType,
    open: StreamOpen,
    after: ConnectionView,
    result: Result<(), CoreError>,
)
    requires
        frame_done(wire, before, packet_type, FrameView::StreamOpen(open), after, result),
        before.streams.contains_key(open.stream_id.value),
    ensures
        after == before,
        result is Ok ==> before.streams[open.stream_id.value].send.max_offset
            == open.initial_receive_window,
{
}

} // verus!
