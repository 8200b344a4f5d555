//! The streams of a connection.

use vstd::prelude::*;

use crate::bytes::copy_bytes;
use crate::ordered_map::OrderedMap;
use crate::reliable_core::config::ConnectionRole;
use crate::reliable_core::congestion::{greater, lesser};
use crate::reliable_core::error::CoreError;
use crate::reliable_core::flow_control::ReceiveFlowControl;
use crate::reliable_core::receive::{
    delivered, insert_error, merged, missing_count, ReceiveStream, ReceiveView,
};
use crate::reliable_core::send::{
    law_requeued_bytes_are_counted, write_error, written, PendingView, QueuedFrame, QueuedView,
    SendStream, SendView,
};
use crate::reliable_core::stream::{StreamInfo, StreamState};
use crate::wire::{FrameView, StreamData, StreamDataView, StreamId};

verus! {

/// One stream.
#[derive(Debug)]
pub struct StreamRecord {
    id: StreamId,
    bidirectional: bool,
    state: StreamState,
    send: SendStream,
    recv: ReceiveStream,
    recv_flow: ReceiveFlowControl,
}

/// A stream, as contracts see it.
#[verifier::ext_equal]
pub struct StreamView {
    pub id: StreamId,
    pub bidirectional: bool,
    pub state: StreamState,
    pub send: SendView,
    pub recv: ReceiveView,
    pub recv_flow: ReceiveFlowControl,
}

impl View for StreamRecord {
    type V = StreamView;

    closed spec fn view(&self) -> StreamView {
        StreamView {
            id: self.id,
            bidirectional: self.bidirectional,
            state: self.state,
            send: self.send@,
            recv: self.recv@,
            recv_flow: self.recv_flow,
        }
    }
}

impl StreamRecord {
    /// A summary of the stream.
    fn info(&self) -> (info: StreamInfo)
        requires
            self.recv.well_formed(),
        ensures
            info == info_of(self@),
    {
        StreamInfo {
            stream_id: self.id,
            state: self.state,
            bidirectional: self.bidirectional,
            send_offset: self.send.next_offset(),
            receive_offset: self.recv.next_offset(),
            receive_window: self.recv.max_offset(),
            buffered_bytes: self.recv.buffered_len(),
        }
    }
}

/// The summary of a stream.
pub open spec fn info_of(stream: StreamView) -> StreamInfo {
    StreamInfo {
        stream_id: stream.id,
        state: stream.state,
        bidirectional: stream.bidirectional,
        send_offset: stream.send.next_offset,
        receive_offset: stream.recv.next_offset,
        receive_window: stream.recv.max_offset,
        buffered_bytes: lesser(stream.recv.buffered() as int, usize::MAX as int) as usize,
    }
}

/// The bytes of a read, whether the stream has ended, and the limit to announce.
pub struct StreamRead {
    pub data: Vec<u8>,
    pub eof: bool,
    pub window_update: Option<u64>,
}

impl StreamRead {
    /// The parts of the read.
    pub fn into_parts(self) -> (parts: (Vec<u8>, bool, Option<u64>))
        ensures
            parts.0 == self.data,
            parts.1 == self.eof,
            parts.2 == self.window_update,
    {
        (self.data, self.eof, self.window_update)
    }
}

/// What became of a stream with bytes that came.
#[derive(Debug, Clone, Copy, PartialEq, Eq, Structural)]
pub struct StreamDataStatus {
    pub readable: bool,
    pub finished: bool,
    pub buffered: usize,
}

/// A stream as it is opened.
pub open spec fn opened(
    stream: StreamView,
    stream_id: StreamId,
    bidirectional: bool,
    send_window: u64,
    receive_window: u64,
) -> bool {
    stream == (StreamView {
        id: stream_id,
        bidirectional,
        state: StreamState::Open,
        send: SendView {
            stream_id,
            max_offset: send_window,
            next_offset: 0,
            queued_bytes: 0,
            fin_requested: false,
            fin_sent: false,
            queue: Seq::empty(),
        },
        recv: ReceiveView {
            stream_id,
            next_offset: 0,
            final_offset: None,
            max_offset: receive_window,
            pending: Map::empty(),
            ready: Seq::empty(),
        },
        recv_flow: ReceiveFlowControl {
            max_offset: receive_window,
            unique_received: 0,
            consumed: 0,
            window_size: receive_window,
            advertised_offset: receive_window,
        },
    })
}

/// The first piece of a stream that may be sent: one that was lost, or one that
/// the other side has room for.
pub open spec fn sendable(stream: StreamView) -> Option<PendingView> {
    let queue = stream.send.queue;
    if queue.len() == 0 {
        None
    } else if queue[0].retransmit_count == 0 && lesser(
        queue[0].offset + queue[0].data.len(),
        u64::MAX as int,
    ) > stream.send.max_offset {
        None
    } else {
        Some(queue[0])
    }
}

/// A stream without the first piece of its queue.
pub open spec fn popped(stream: StreamView) -> StreamView {
    let piece = stream.send.queue[0];
    StreamView {
        send: SendView {
            queue: stream.send.queue.subrange(1, stream.send.queue.len() as int),
            queued_bytes: greater(stream.send.queued_bytes - piece.data.len(), 0) as usize,
            fin_sent: stream.send.fin_sent || piece.fin,
            ..stream.send
        },
        ..stream
    }
}

/// A stream with a piece put back at the front of its queue.
pub open spec fn requeued(
    stream: StreamView,
    data: StreamDataView,
    retransmit_count: u32,
) -> StreamView {
    StreamView {
        send: SendView {
            queue: seq![
                PendingView {
                    offset: data.offset,
                    data: data.data,
                    fin: data.fin,
                    retransmit_count,
                },
            ] + stream.send.queue,
            queued_bytes: lesser(
                stream.send.queued_bytes + data.data.len(),
                usize::MAX as int,
            ) as usize,
            fin_sent: stream.send.fin_sent && !data.fin,
            ..stream.send
        },
        ..stream
    }
}

/// Taking the first piece out, or putting one back, keeps the count of the bytes in
/// the queue, as long as that count can be expressed.
pub proof fn law_queued_bytes_stay_counted(
    stream: StreamView,
    data: StreamDataView,
    retransmit_count: u32,
)
    requires
        stream.send.counts_its_bytes(),
    ensures
        stream.send.queue.len() > 0 ==> popped(stream).send.counts_its_bytes(),
        stream.send.queued_bytes + data.data.len() <= usize::MAX ==> requeued(
            stream,
            data,
            retransmit_count,
        ).send.counts_its_bytes(),
{
    law_requeued_bytes_are_counted(
        stream.send.queue,
        PendingView { offset: data.offset, data: data.data, fin: data.fin, retransmit_count },
    );
}

/// The frame that carries a piece of a stream.
pub open spec fn piece_frame(stream_id: u64, piece: PendingView) -> QueuedView {
    QueuedView {
        frame: FrameView::StreamData(
            StreamDataView {
                stream_id: StreamId { value: stream_id },
                offset: piece.offset,
                fin: piece.fin,
                data: piece.data,
            },
        ),
        retransmit_count: piece.retransmit_count,
    }
}

/// The lowest stream with a piece that may be sent.
pub open spec fn first_sendable(streams: Map<u64, StreamView>, id: u64) -> bool {
    &&& streams.contains_key(id)
    &&& sendable(streams[id]) is Some
    &&& forall|other: u64| #[trigger]
        streams.contains_key(other) && other < id ==> sendable(streams[other]) is None
}

/// Number of new bytes that a frame brings to a stream, or why it is refused.
pub open spec fn new_bytes_of(
    stream: StreamView,
    data: StreamDataView,
    max_receive_buffer: usize,
) -> Result<nat, CoreError> {
    let count = missing_count(
        stream.recv.pending,
        greater(data.offset as int, stream.recv.next_offset as int),
        data.offset + data.data.len(),
    );
    if stream.state != StreamState::Open {
        Ok(0)
    } else if data.offset + data.data.len() > u64::MAX {
        Err(CoreError::InvalidOffset)
    } else if data.offset + data.data.len() > stream.recv.max_offset {
        Err(CoreError::FlowControlViolation { stream_id: Some(stream.recv.stream_id) })
    } else if count > greater(
        max_receive_buffer - lesser(stream.recv.buffered() as int, usize::MAX as int),
        0,
    ) {
        Err(CoreError::ReceiveBufferFull)
    } else {
        Ok(count)
    }
}

/// What a read of at most `max_len` bytes leaves of a stream.
pub open spec fn after_read(stream: StreamView, max_len: usize) -> StreamView {
    let amount = lesser(max_len as int, stream.recv.ready.len() as int);
    let ready = stream.recv.ready.subrange(amount, stream.recv.ready.len() as int);
    let consumed = lesser(stream.recv_flow.consumed + amount, u64::MAX as int) as u64;
    let desired = lesser(consumed + stream.recv_flow.window_size, u64::MAX as int) as u64;
    let raised = desired > stream.recv_flow.advertised_offset;
    StreamView {
        state: if stream.recv.final_offset == Some(stream.recv.next_offset) && ready.len() == 0 {
            StreamState::Finished
        } else {
            stream.state
        },
        recv: ReceiveView {
            ready,
            max_offset: if raised {
                desired
            } else {
                stream.recv.max_offset
            },
            ..stream.recv
        },
        recv_flow: if raised {
            ReceiveFlowControl {
                consumed,
                advertised_offset: desired,
                max_offset: desired,
                ..stream.recv_flow
            }
        } else {
            ReceiveFlowControl { consumed, ..stream.recv_flow }
        },
        ..stream
    }
}

/// The streams, by number.
#[derive(Debug)]
pub struct StreamManager {
    next_stream_number: u64,
    streams: OrderedMap<StreamRecord>,
}

/// The streams as contracts see them.
spec fn stream_views(streams: Map<u64, StreamRecord>) -> Map<u64, StreamView> {
    Map::new(|id: u64| streams.contains_key(id), |id: u64| streams[id]@)
}

proof fn lemma_views_changed(streams: Map<u64, StreamRecord>, id: u64, record: StreamRecord)
    ensures
        stream_views(streams.insert(id, record)) == stream_views(streams).insert(id, record@),
{
    assert(stream_views(streams.insert(id, record)) =~= stream_views(streams).insert(id, record@));
}

/// Number of pieces that wait in the first `count` streams.
spec fn pieces_total(streams: Map<u64, StreamRecord>, keys: Seq<u64>, count: int) -> nat
    decreases count,
{
    if count <= 0 {
        0
    } else {
        pieces_total(streams, keys, count - 1) + streams[keys[count - 1]]@.send.queue.len()
    }
}

/// One piece less in one stream is one piece less in all.
proof fn lemma_piece_taken(
    before: Map<u64, StreamRecord>,
    after: Map<u64, StreamRecord>,
    keys: Seq<u64>,
    place: int,
    count: int,
)
    requires
        0 <= place < keys.len(),
        0 <= count <= keys.len(),
        forall|i: int, j: int| 0 <= i < j < keys.len() ==> keys[i] < keys[j],
        after == before.insert(keys[place], after[keys[place]]),
        before[keys[place]]@.send.queue.len() == after[keys[place]]@.send.queue.len() + 1,
    ensures
        pieces_total(before, keys, count) == pieces_total(after, keys, count) + (if place < count {
            1int
        } else {
            0
        }),
    decreases count,
{
    if count > 0 {
        lemma_piece_taken(before, after, keys, place, count - 1);
        if count - 1 != place {
            assert(keys[count - 1] != keys[place]);
        }
    }
}

impl View for StreamManager {
    type V = Map<u64, StreamView>;

    closed spec fn view(&self) -> Map<u64, StreamView> {
        stream_views(self.streams@)
    }
}

impl StreamManager {
    /// Number of the next stream that this side opens.
    pub closed spec fn next_number(&self) -> u64 {
        self.next_stream_number
    }

    /// Number of pieces that wait to be sent.
    pub closed spec fn queued_pieces(&self) -> nat {
        pieces_total(self.streams@, self.streams.keys(), self.streams.keys().len() as int)
    }

    /// Every stream is right, and knows its number.
    pub closed spec fn well_formed(&self) -> bool {
        &&& self.streams.well_formed()
        &&& forall|id: u64| #[trigger]
            self.streams@.contains_key(id) ==> self.streams@[id].recv.well_formed()
                && self.streams@[id].id.value == id
    }

    /// No stream; the first that this side opens is `next_stream_number`.
    pub fn new(next_stream_number: u64) -> (manager: Self)
        ensures
            manager.well_formed(),
            manager@ == Map::<u64, StreamView>::empty(),
            manager.next_number() == next_stream_number,
    {
        let manager = StreamManager { next_stream_number, streams: OrderedMap::new() };
        assert(manager@ =~= Map::<u64, StreamView>::empty());
        manager
    }

    /// Whether a piece of some stream waits to be sent.
    pub fn has_pending_data(&self) -> (pending: bool)
        requires
            self.well_formed(),
        ensures
            pending <==> exists|id: u64| #[trigger]
                self@.contains_key(id) && self@[id].send.queue.len() > 0,
    {
        proof {
            self.streams.lemma_keys();
        }
        let mut index: usize = 0;
        while index < self.streams.len()
            invariant
                self.well_formed(),
                index <= self.streams.keys().len(),
                forall|i: int|
                    0 <= i < index ==> self.streams@[#[trigger] self.streams.keys()[i]]@.send.queue.len()
                        == 0,
            decreases self.streams.keys().len() - index,
        {
            let record = self.streams.value_at(index);
            if record.send.has_pending_data() {
                assert(self@.contains_key(self.streams.keys()[index as int]));
                return true;
            }
            index = index + 1;
        }
        proof {
            assert forall|id: u64| #[trigger] self@.contains_key(id) implies self@[id].send.queue.len()
                == 0 by {
                assert(self.streams@.contains_key(id));
                let i = self.streams.keys().index_of(id);
                assert(self.streams.keys()[i] == id);
            }
        }
        false
    }

    /// The number of streams.
    pub fn len(&self) -> (count: usize)
        requires
            self.well_formed(),
        ensures
            count == self@.dom().len(),
    {
        assert(self@.dom() =~= self.streams@.dom());
        self.streams.len()
    }

    /// A summary of a stream.
    pub fn info(&self, stream_id: StreamId) -> (result: Result<StreamInfo, CoreError>)
        requires
            self.well_formed(),
        ensures
            match result {
                Ok(info) => self@.contains_key(stream_id.value) && info == info_of(
                    self@[stream_id.value],
                ),
                Err(error) => !self@.contains_key(stream_id.value) && error == (
                CoreError::UnknownStream { stream_id }),
            },
    {
        match self.streams.get(stream_id.value) {
            Some(stream) => Ok(stream.info()),
            None => Err(CoreError::UnknownStream { stream_id }),
        }
    }

    /// The offset up to which the other side lets this one send.
    pub fn send_window(&self, stream_id: StreamId) -> (result: Result<u64, CoreError>)
        requires
            self.well_formed(),
        ensures
            match result {
                Ok(window) => self@.contains_key(stream_id.value) && window
                    == self@[stream_id.value].send.max_offset,
                Err(error) => !self@.contains_key(stream_id.value) && error == (
                CoreError::UnknownStream { stream_id }),
            },
    {
        match self.streams.get(stream_id.value) {
            Some(stream) => Ok(stream.send.max_offset()),
            None => Err(CoreError::UnknownStream { stream_id }),
        }
    }

    /// Opens the next stream of this side.
    pub fn open_local(&mut self, role: ConnectionRole, send_window: u64, receive_window: u64)
        -> (result: Result<StreamId, CoreError>)
        requires
            old(self).well_formed(),
        ensures
            final(self).well_formed(),
            ({
                let next = old(self).next_number();
                if next + 2 > u64::MAX {
                    &&& result matches Err(error) && error == (CoreError::InvalidState {
                        operation: "allocate stream ID",
                    })
                    &&& final(self)@ == old(self)@
                    &&& final(self).next_number() == next
                } else {
                    &&& final(self).next_number() == next + 2
                    &&& if old(self)@.contains_key(next) {
                        result == Ok::<StreamId, CoreError>(StreamId { value: next })
                            && final(self)@ == old(self)@
                    } else if next % 2 != role.parity() {
                        &&& result matches Err(error) && error == (CoreError::InvalidStreamId {
                            stream_id: StreamId { value: next },
                        })
                        &&& final(self)@ == old(self)@
                    } else {
                        &&& result == Ok::<StreamId, CoreError>(StreamId { value: next })
                        &&& opened(
                            final(self)@[next],
                            StreamId { value: next },
                            true,
                            send_window,
                            receive_window,
                        )
                        &&& final(self)@ == old(self)@.insert(next, final(self)@[next])
                    }
                }
            }),
    {
        let raw: u64 = match self.next_stream_number.checked_add(2) {
            Some(raw) => raw,
            None => {
                return Err(CoreError::InvalidState { operation: "allocate stream ID" });
            },
        };
        let stream_id = StreamId::new(self.next_stream_number);
        self.next_stream_number = raw;
        match self.insert(
            stream_id,
            true,
            send_window,
            role.local_stream_parity(),
            receive_window,
        ) {
            Ok(_) => Ok(stream_id),
            Err(error) => Err(error),
        }
    }

    /// Adds a stream, unless it is there.
    pub fn insert(
        &mut self,
        stream_id: StreamId,
        bidirectional: bool,
        send_window: u64,
        expected_parity: u64,
        receive_window: u64,
    ) -> (result: Result<(), CoreError>)
        requires
            old(self).well_formed(),
        ensures
            final(self).well_formed(),
            final(self).next_number() == old(self).next_number(),
            if old(self)@.contains_key(stream_id.value) {
                result is Ok && final(self)@ == old(self)@
            } else if stream_id.value % 2 != expected_parity {
                &&& result matches Err(error) && error == (CoreError::InvalidStreamId { stream_id })
                &&& final(self)@ == old(self)@
            } else {
                &&& result is Ok
                &&& opened(
                    final(self)@[stream_id.value],
                    stream_id,
                    bidirectional,
                    send_window,
                    receive_window,
                )
                &&& final(self)@ == old(self)@.insert(
                    stream_id.value,
                    final(self)@[stream_id.value],
                )
            },
    {
        if self.streams.contains_key(stream_id.value) {
            return Ok(());
        }
        if stream_id.value % 2 != expected_parity {
            return Err(CoreError::InvalidStreamId { stream_id });
        }
        let record = StreamRecord {
            id: stream_id,
            bidirectional,
            state: StreamState::Open,
            send: SendStream::new(stream_id, send_window),
            recv: ReceiveStream::new(stream_id, receive_window),
            recv_flow: ReceiveFlowControl::new(receive_window),
        };
        proof {
            lemma_views_changed(self.streams@, stream_id.value, record);
        }
        self.streams.insert(stream_id.value, record);
        Ok(())
    }

    /// Writes to a stream.
    pub fn write(
        &mut self,
        stream_id: StreamId,
        data: &[u8],
        fin: bool,
        max_buffer: usize,
        max_chunk: usize,
    ) -> (result: Result<usize, CoreError>)
        requires
            old(self).well_formed(),
        ensures
            final(self).well_formed(),
            final(self).next_number() == old(self).next_number(),
            ({
                let id = stream_id.value;
                let stream = old(self)@[id];
                let refused = if !old(self)@.contains_key(id) {
                    Some(CoreError::UnknownStream { stream_id })
                } else if stream.state != StreamState::Open {
                    Some(CoreError::InvalidState { operation: "write closed stream" })
                } else {
                    write_error(stream.send, data@.len(), max_buffer)
                };
                match result {
                    Ok(count) => {
                        &&& refused is None
                        &&& count == data@.len()
                        &&& final(self)@ == old(self)@.insert(
                            id,
                            StreamView {
                                send: written(stream.send, data@, fin, max_chunk),
                                ..stream
                            },
                        )
                    },
                    Err(error) => refused == Some(error) && final(self)@ == old(self)@,
                }
            }),
    {
        let ghost before = self.streams@;
        let id: u64 = stream_id.value;
        let result = match self.streams.get_mut(id) {
            None => Err(CoreError::UnknownStream { stream_id }),
            Some(stream) => {
                if stream.state != StreamState::Open {
                    Err(CoreError::InvalidState { operation: "write closed stream" })
                } else {
                    stream.send.write(data, fin, max_buffer, max_chunk)
                }
            },
        };
        proof {
            if before.contains_key(id) {
                lemma_views_changed(before, id, self.streams@[id]);
                assert(stream_views(before).insert(id, before[id]@) =~= stream_views(before));
            }
        }
        result
    }

    /// Reads from a stream.
    pub fn read(&mut self, stream_id: StreamId, max_len: usize) -> (result: Result<
        StreamRead,
        CoreError,
    >)
        requires
            old(self).well_formed(),
        ensures
            final(self).well_formed(),
            final(self).next_number() == old(self).next_number(),
            ({
                let id = stream_id.value;
                let stream = old(self)@[id];
                match result {
                    Ok(read) => {
                        let after = after_read(stream, max_len);
                        &&& old(self)@.contains_key(id)
                        &&& !(stream.state is Reset)
                        &&& read.data@ == stream.recv.ready.subrange(
                            0,
                            lesser(max_len as int, stream.recv.ready.len() as int),
                        )
                        &&& read.eof <==> after.recv.final_offset == Some(after.recv.next_offset)
                            && after.recv.ready.len() == 0
                        &&& read.window_update == (if after.recv_flow.advertised_offset
                            != stream.recv_flow.advertised_offset {
                            Some(after.recv_flow.advertised_offset)
                        } else {
                            None
                        })
                        &&& final(self)@ == old(self)@.insert(id, after)
                    },
                    Err(error) => {
                        &&& final(self)@ == old(self)@
                        &&& if !old(self)@.contains_key(id) {
                            error == (CoreError::UnknownStream { stream_id })
                        } else {
                            stream.state matches StreamState::Reset { error_code } && error == (
                            CoreError::StreamReset { stream_id, error_code })
                        }
                    },
                }
            }),
    {
        let ghost before = self.streams@;
        let id: u64 = stream_id.value;
        let result = match self.streams.get_mut(id) {
            None => Err(CoreError::UnknownStream { stream_id }),
            Some(stream) => {
                match stream.state {
                    StreamState::Reset { error_code } => Err(
                        CoreError::StreamReset { stream_id, error_code },
                    ),
                    _ => {
                        let data = stream.recv.read(max_len);
                        let window_update = stream.recv_flow.consume(data.len());
                        match window_update {
                            Some(max_offset) => {
                                stream.recv.set_max_offset(max_offset);
                            },
                            None => {},
                        }
                        let eof: bool = stream.recv.is_finished();
                        if eof {
                            stream.state = StreamState::Finished;
                        }
                        Ok(StreamRead { data, eof, window_update })
                    },
                }
            },
        };
        proof {
            if before.contains_key(id) {
                lemma_views_changed(before, id, self.streams@[id]);
                assert(stream_views(before).insert(id, before[id]@) =~= stream_views(before));
            }
        }
        result
    }

    /// Counts the bytes of a frame that have not come.
    pub fn new_data_bytes(&self, data: &StreamData, max_receive_buffer: usize) -> (result: Result<
        usize,
        CoreError,
    >)
        requires
            self.well_formed(),
        ensures
            ({
                let id = data.stream_id.value;
                let expected = new_bytes_of(self@[id], data@, max_receive_buffer);
                match result {
                    Ok(count) => self@.contains_key(id) && expected == Ok::<nat, CoreError>(
                        count as nat,
                    ),
                    Err(error) => if self@.contains_key(id) {
                        expected == Err::<nat, CoreError>(error)
                    } else {
                        error == (CoreError::UnknownStream { stream_id: data.stream_id })
                    },
                }
            }),
    {
        match self.streams.get(data.stream_id.value) {
            None => Err(CoreError::UnknownStream { stream_id: data.stream_id }),
            Some(stream) => {
                if stream.state != StreamState::Open {
                    return Ok(0);
                }
                match stream.recv.new_bytes(data.offset, &data.data) {
                    Err(error) => Err(error),
                    Ok(new_bytes) => {
                        if new_bytes > max_receive_buffer.saturating_sub(
                            stream.recv.buffered_len(),
                        ) {
                            Err(CoreError::ReceiveBufferFull)
                        } else {
                            Ok(new_bytes)
                        }
                    },
                }
            },
        }
    }

    /// Gives the bytes of a frame to its stream.
    pub fn insert_data(
        &mut self,
        data: &StreamData,
    ) -> (result: Result<StreamDataStatus, CoreError>)
        requires
            old(self).well_formed(),
        ensures
            final(self).well_formed(),
            final(self).next_number() == old(self).next_number(),
            ({
                let id = data.stream_id.value;
                let stream = old(self)@[id];
                let refused = insert_error(stream.recv, data.offset, data.data@.len(), data.fin);
                match result {
                    Ok(status) => {
                        &&& old(self)@.contains_key(id)
                        &&& if stream.state != StreamState::Open {
                            &&& final(self)@ == old(self)@
                            &&& !status.readable
                            &&& !status.finished
                        } else {
                            let after = final(self)@[id];
                            &&& refused is None
                            &&& delivered(
                                stream.recv,
                                merged(stream.recv, data.offset, data.data@),
                                after.recv,
                            )
                            &&& after.recv.final_offset == (if data.fin {
                                Some((data.offset + data.data@.len()) as u64)
                            } else {
                                stream.recv.final_offset
                            })
                            &&& after == (StreamView {
                                recv: after.recv,
                                ..stream
                            })
                            &&& final(self)@ == old(self)@.insert(id, after)
                            &&& status.readable <==> after.recv.ready.len() > 0
                            &&& status.finished <==> after.recv.final_offset == Some(
                                after.recv.next_offset,
                            ) && after.recv.ready.len() == 0
                        }
                        &&& status.buffered == lesser(
                            final(self)@[id].recv.buffered() as int,
                            usize::MAX as int,
                        )
                    },
                    Err(error) => {
                        &&& final(self)@ == old(self)@
                        &&& if !old(self)@.contains_key(id) {
                            error == (CoreError::UnknownStream { stream_id: data.stream_id })
                        } else {
                            stream.state == StreamState::Open && refused == Some(error)
                        }
                    },
                }
            }),
    {
        let ghost before = self.streams@;
        let id: u64 = data.stream_id.value;
        let result = match self.streams.get_mut(id) {
            None => Err(CoreError::UnknownStream { stream_id: data.stream_id }),
            Some(stream) => {
                if stream.state != StreamState::Open {
                    Ok(
                        StreamDataStatus {
                            readable: false,
                            finished: false,
                            buffered: stream.recv.buffered_len(),
                        },
                    )
                } else {
                    match stream.recv.insert(data.offset, &data.data, data.fin) {
                        Err(error) => Err(error),
                        Ok(_) => Ok(
                            StreamDataStatus {
                                readable: stream.recv.readable(),
                                finished: stream.recv.is_finished(),
                                buffered: stream.recv.buffered_len(),
                            },
                        ),
                    }
                }
            },
        };
        proof {
            if before.contains_key(id) {
                lemma_views_changed(before, id, self.streams@[id]);
                assert(stream_views(before).insert(id, before[id]@) =~= stream_views(before));
            }
        }
        result
    }

    /// Marks a stream as finished.
    pub fn finish(&mut self, stream_id: StreamId)
        requires
            old(self).well_formed(),
        ensures
            final(self).well_formed(),
            final(self).next_number() == old(self).next_number(),
            final(self)@ == (if old(self)@.contains_key(stream_id.value) {
                old(self)@.insert(
                    stream_id.value,
                    StreamView { state: StreamState::Finished, ..old(self)@[stream_id.value] },
                )
            } else {
                old(self)@
            }),
    {
        let ghost before = self.streams@;
        match self.streams.get_mut(stream_id.value) {
            None => {},
            Some(stream) => {
                stream.state = StreamState::Finished;
            },
        }
        proof {
            if before.contains_key(stream_id.value) {
                lemma_views_changed(before, stream_id.value, self.streams@[stream_id.value]);
            }
        }
    }

    /// Marks a stream as ended by an error.
    pub fn reset(&mut self, stream_id: StreamId, error_code: u32) -> (result: Result<(), CoreError>)
        requires
            old(self).well_formed(),
        ensures
            final(self).well_formed(),
            final(self).next_number() == old(self).next_number(),
            match result {
                Ok(_) => old(self)@.contains_key(stream_id.value) && final(self)@ == old(
                    self,
                )@.insert(
                    stream_id.value,
                    StreamView {
                        state: StreamState::Reset { error_code },
                        ..old(self)@[stream_id.value]
                    },
                ),
                Err(error) => !old(self)@.contains_key(stream_id.value) && final(self)@ == old(
                    self,
                )@ && error == (CoreError::UnknownStream { stream_id }),
            },
    {
        let ghost before = self.streams@;
        let result = match self.streams.get_mut(stream_id.value) {
            None => Err(CoreError::UnknownStream { stream_id }),
            Some(stream) => {
                stream.state = StreamState::Reset { error_code };
                Ok(())
            },
        };
        proof {
            if before.contains_key(stream_id.value) {
                lemma_views_changed(before, stream_id.value, self.streams@[stream_id.value]);
            }
        }
        result
    }

    /// Raises the offset up to which the other side lets this one send.
    pub fn update_send_window(&mut self, stream_id: StreamId, max_offset: u64) -> (result: Result<
        (),
        CoreError,
    >)
        requires
            old(self).well_formed(),
        ensures
            final(self).well_formed(),
            final(self).next_number() == old(self).next_number(),
            ({
                let id = stream_id.value;
                let stream = old(self)@[id];
                match result {
                    Ok(_) => old(self)@.contains_key(id) && final(self)@ == old(self)@.insert(
                        id,
                        StreamView {
                            send: SendView {
                                max_offset: greater(
                                    stream.send.max_offset as int,
                                    max_offset as int,
                                ) as u64,
                                ..stream.send
                            },
                            ..stream
                        },
                    ),
                    Err(error) => !old(self)@.contains_key(id) && final(self)@ == old(self)@
                        && error == (CoreError::UnknownStream { stream_id }),
                }
            }),
    {
        let ghost before = self.streams@;
        let result = match self.streams.get_mut(stream_id.value) {
            None => Err(CoreError::UnknownStream { stream_id }),
            Some(stream) => {
                stream.send.update_window(max_offset);
                Ok(())
            },
        };
        proof {
            if before.contains_key(stream_id.value) {
                lemma_views_changed(before, stream_id.value, self.streams@[stream_id.value]);
            }
        }
        result
    }

    /// Takes the first piece of the lowest stream that may be sent.
    pub fn take_sendable(&mut self) -> (frame: Option<QueuedFrame>)
        requires
            old(self).well_formed(),
        ensures
            final(self).well_formed(),
            final(self).next_number() == old(self).next_number(),
            match frame {
                Some(queued) => exists|id: u64| #[trigger]
                    first_sendable(old(self)@, id) && queued@ == piece_frame(
                        id,
                        sendable(old(self)@[id])->0,
                    ) && final(self)@ == old(self)@.insert(id, popped(old(self)@[id])),
                None => final(self)@ == old(self)@ && forall|id: u64| #[trigger]
                    old(self)@.contains_key(id) ==> sendable(old(self)@[id]) is None,
            },
            frame is Some ==> final(self).queued_pieces() + 1 == old(self).queued_pieces(),
            frame is None ==> final(self).queued_pieces() == old(self).queued_pieces(),
    {
        let ghost before = self.streams@;
        proof {
            self.streams.lemma_keys();
        }
        let mut index: usize = 0;
        while index < self.streams.len()
            invariant
                self.well_formed(),
                self.streams@ == before,
                before == old(self).streams@,
                self.streams.keys() == old(self).streams.keys(),
                self.next_stream_number == old(self).next_stream_number,
                index <= self.streams.keys().len(),
                forall|i: int, j: int|
                    0 <= i < j < self.streams.keys().len() ==> self.streams.keys()[i]
                        < self.streams.keys()[j],
                forall|key: u64| #[trigger]
                    self.streams@.contains_key(key) <==> self.streams.keys().contains(key),
                forall|i: int|
                    0 <= i < index ==> sendable(before[#[trigger] self.streams.keys()[i]]@) is None,
            decreases self.streams.keys().len() - index,
        {
            let id: u64 = self.streams.key_at(index);
            let stream = self.streams.value_at(index);
            let mut ready: bool = false;
            match stream.send.front_sendable() {
                None => {},
                Some(item) => {
                    let end: u64 = item.offset().saturating_add(item.data().len() as u64);
                    ready = item.retransmit_count() != 0 || end <= stream.send.max_offset();
                },
            }
            if ready {
                proof {
                    assert forall|other: u64| #[trigger]
                        self@.contains_key(other) && other < id implies sendable(self@[other]) is None by {
                        assert(self.streams@.contains_key(other));
                        let i = self.streams.keys().index_of(other);
                        assert(self.streams.keys()[i] == other);
                        if i >= index {
                            if i > index {
                                assert(self.streams.keys()[index as int] < self.streams.keys()[i]);
                            }
                        }
                    }
                    assert(first_sendable(self@, id));
                }
                let mut frame: Option<QueuedFrame> = None;
                match self.streams.get_mut(id) {
                    None => {},
                    Some(stream) => {
                        match stream.send.pop_sendable() {
                            None => {},
                            Some(item) => {
                                frame = Some(
                                    QueuedFrame::stream_data(
                                        StreamId::new(id),
                                        item.offset(),
                                        item.fin(),
                                        copy_bytes(item.data()),
                                        item.retransmit_count(),
                                    ),
                                );
                            },
                        }
                    },
                }
                proof {
                    lemma_views_changed(before, id, self.streams@[id]);
                    lemma_piece_taken(
                        before,
                        self.streams@,
                        self.streams.keys(),
                        index as int,
                        self.streams.keys().len() as int,
                    );
                    assert(self@[id] =~= popped(old(self)@[id]));
                    assert(frame->0@ =~= piece_frame(id, sendable(old(self)@[id])->0));
                }
                return frame;
            }
            index = index + 1;
        }
        proof {
            assert forall|id: u64| #[trigger] self@.contains_key(id) implies sendable(
                self@[id],
            ) is None by {
                assert(self.streams@.contains_key(id));
                let i = self.streams.keys().index_of(id);
                assert(self.streams.keys()[i] == id);
            }
        }
        None
    }

    /// Puts a piece that was lost or could not be sent back.
    pub fn requeue(&mut self, data: &StreamData, retransmit_count: u32) -> (result: Result<
        (),
        CoreError,
    >)
        requires
            old(self).well_formed(),
        ensures
            final(self).well_formed(),
            final(self).next_number() == old(self).next_number(),
            ({
                let id = data.stream_id.value;
                match result {
                    Ok(_) => old(self)@.contains_key(id) && final(self)@ == old(self)@.insert(
                        id,
                        requeued(old(self)@[id], data@, retransmit_count),
                    ),
                    Err(error) => !old(self)@.contains_key(id) && final(self)@ == old(self)@
                        && error == (CoreError::UnknownStream { stream_id: data.stream_id }),
                }
            }),
    {
        let ghost before = self.streams@;
        let id: u64 = data.stream_id.value;
        let result = match self.streams.get_mut(id) {
            None => Err(CoreError::UnknownStream { stream_id: data.stream_id }),
            Some(stream) => {
                stream.send.requeue(data, retransmit_count);
                Ok(())
            },
        };
        proof {
            if before.contains_key(id) {
                lemma_views_changed(before, id, self.streams@[id]);
            }
        }
        result
    }
}

} // verus!
