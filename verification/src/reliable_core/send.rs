//! Sending side of a stream: cuts bytes into pieces and queues them.

use std::collections::VecDeque;

use vstd::prelude::*;

use crate::bytes::{copy_bytes, copy_range};
use crate::reliable_core::congestion::{greater, lesser};
use crate::reliable_core::error::CoreError;
use crate::wire::{Frame, FrameView, StreamData, StreamDataView, StreamId};

verus! {

/// A frame that waits to be sent, and how often it was lost.
#[derive(Debug, Clone, PartialEq, Eq)]
pub struct QueuedFrame {
    frame: Frame,
    retransmit_count: u32,
}

/// A [`QueuedFrame`], as contracts see it.
#[verifier::ext_equal]
pub struct QueuedView {
    pub frame: FrameView,
    pub retransmit_count: u32,
}

impl View for QueuedFrame {
    type V = QueuedView;

    closed spec fn view(&self) -> QueuedView {
        QueuedView { frame: self.frame@, retransmit_count: self.retransmit_count }
    }
}

impl QueuedFrame {
    /// A frame that was never lost.
    pub fn new(frame: Frame) -> (queued: Self)
        ensures
            queued@ == (QueuedView { frame: frame@, retransmit_count: 0 }),
    {
        QueuedFrame { frame, retransmit_count: 0 }
    }

    /// A frame that was lost `retransmit_count` times.
    pub fn with_count(frame: Frame, retransmit_count: u32) -> (queued: Self)
        ensures
            queued@ == (QueuedView { frame: frame@, retransmit_count }),
    {
        QueuedFrame { frame, retransmit_count }
    }

    /// A frame with bytes of a stream.
    pub fn stream_data(
        stream_id: StreamId,
        offset: u64,
        fin: bool,
        data: Vec<u8>,
        retransmit_count: u32,
    ) -> (queued: Self)
        ensures
            queued@ == (QueuedView {
                frame: FrameView::StreamData(
                    StreamDataView { stream_id, offset, fin, data: data@ },
                ),
                retransmit_count,
            }),
    {
        QueuedFrame {
            frame: Frame::StreamData(StreamData { stream_id, offset, fin, data }),
            retransmit_count,
        }
    }

    /// The frame.
    pub fn frame(&self) -> (frame: &Frame)
        ensures
            frame@ == self@.frame,
    {
        &self.frame
    }

    /// How often the frame was lost.
    pub fn retransmit_count(&self) -> (count: u32)
        ensures
            count == self@.retransmit_count,
    {
        self.retransmit_count
    }

    /// The frame and how often it was lost.
    pub fn into_parts(self) -> (parts: (Frame, u32))
        ensures
            parts.0@ == self@.frame,
            parts.1 == self@.retransmit_count,
    {
        (self.frame, self.retransmit_count)
    }
}

/// A piece of a stream that waits to be sent.
#[derive(Debug, Clone, PartialEq, Eq)]
pub struct PendingData {
    offset: u64,
    data: Vec<u8>,
    fin: bool,
    retransmit_count: u32,
}

/// A [`PendingData`], as contracts see it.
#[verifier::ext_equal]
pub struct PendingView {
    pub offset: u64,
    pub data: Seq<u8>,
    pub fin: bool,
    pub retransmit_count: u32,
}

impl View for PendingData {
    type V = PendingView;

    closed spec fn view(&self) -> PendingView {
        PendingView {
            offset: self.offset,
            data: self.data@,
            fin: self.fin,
            retransmit_count: self.retransmit_count,
        }
    }
}

impl PendingData {
    /// Offset of the first byte.
    pub fn offset(&self) -> (offset: u64)
        ensures
            offset == self@.offset,
    {
        self.offset
    }

    /// The bytes.
    pub fn data(&self) -> (data: &Vec<u8>)
        ensures
            data@ == self@.data,
    {
        &self.data
    }

    /// Whether the stream ends with them.
    pub fn fin(&self) -> (fin: bool)
        ensures
            fin == self@.fin,
    {
        self.fin
    }

    /// How often the piece was lost.
    pub fn retransmit_count(&self) -> (count: u32)
        ensures
            count == self@.retransmit_count,
    {
        self.retransmit_count
    }
}

/// The pieces of `data`, each of `size` bytes but for the last.
pub open spec fn pieces(data: Seq<u8>, offset: nat, size: nat) -> Seq<PendingView>
    decreases data.len(),
{
    if data.len() == 0 || size == 0 {
        Seq::empty()
    } else {
        let length = lesser(size as int, data.len() as int);
        seq![
            PendingView {
                offset: offset as u64,
                data: data.subrange(0, length),
                fin: false,
                retransmit_count: 0,
            },
        ] + pieces(data.subrange(length, data.len() as int), (offset + length) as nat, size)
    }
}

/// The queue with the end of the stream marked on its last piece.
pub open spec fn with_fin(queue: Seq<PendingView>) -> Seq<PendingView> {
    if queue.len() == 0 {
        queue
    } else {
        queue.update(queue.len() - 1, PendingView { fin: true, ..queue.last() })
    }
}

/// The sending side of a stream, as contracts see it.
#[verifier::ext_equal]
pub struct SendView {
    pub stream_id: StreamId,
    /// Offset up to which the other side lets this one send.
    pub max_offset: u64,
    /// Offset of the next byte to be written.
    pub next_offset: u64,
    /// Bytes in the queue.
    pub queued_bytes: usize,
    pub fin_requested: bool,
    pub fin_sent: bool,
    pub queue: Seq<PendingView>,
}

/// Number of bytes that the pieces hold together.
pub open spec fn total_length(queue: Seq<PendingView>) -> nat
    decreases queue.len(),
{
    if queue.len() == 0 {
        0
    } else {
        queue[0].data.len() + total_length(queue.subrange(1, queue.len() as int))
    }
}

impl SendView {
    /// The count of the queued bytes is that of the bytes in the queue.
    pub open spec fn counts_its_bytes(self) -> bool {
        self.queued_bytes == total_length(self.queue)
    }
}

/// Why bytes cannot be written.
pub open spec fn write_error(view: SendView, length: nat, max_buffer: usize) -> Option<CoreError> {
    if view.fin_requested || view.fin_sent {
        Some(CoreError::InvalidState { operation: "write after FIN" })
    } else if length > greater(max_buffer - view.queued_bytes, 0) {
        Some(CoreError::SendBufferFull)
    } else if view.next_offset + length > u64::MAX {
        Some(CoreError::InvalidOffset)
    } else if view.next_offset + length > view.max_offset {
        Some(CoreError::FlowControlViolation { stream_id: Some(view.stream_id) })
    } else {
        None
    }
}

/// The sending side once `data` was written.
pub open spec fn written(view: SendView, data: Seq<u8>, fin: bool, max_chunk: usize) -> SendView {
    let queued = view.queue + pieces(
        data,
        view.next_offset as nat,
        greater(max_chunk as int, 1) as nat,
    );
    let end = (view.next_offset + data.len()) as u64;
    SendView {
        next_offset: end,
        queued_bytes: (view.queued_bytes + data.len()) as usize,
        fin_requested: view.fin_requested || fin,
        queue: if !fin {
            queued
        } else if data.len() == 0 {
            queued.push(
                PendingView { offset: end, data: Seq::empty(), fin: true, retransmit_count: 0 },
            )
        } else {
            with_fin(queued)
        },
        ..view
    }
}

/// Whether one of the pieces holds the byte at `at`.
pub open spec fn some_piece_holds(pieces: Seq<PendingView>, at: int) -> bool {
    exists|i: int|
        0 <= i < pieces.len() && (#[trigger] pieces[i]).offset <= at < pieces[i].offset
            + pieces[i].data.len()
}

/// The pieces put together are the data: each lies where its offset says, and
/// none is longer than `size`.
pub proof fn law_pieces_hold_the_data(data: Seq<u8>, offset: nat, size: nat)
    requires
        size > 0,
        offset + data.len() <= u64::MAX,
    ensures
        forall|i: int|
            #![trigger pieces(data, offset, size)[i]]
            0 <= i < pieces(data, offset, size).len() ==> {
                let piece = pieces(data, offset, size)[i];
                &&& offset <= piece.offset
                &&& 0 < piece.data.len() <= size
                &&& piece.offset + piece.data.len() <= offset + data.len()
                &&& piece.data == data.subrange(
                    piece.offset - offset,
                    piece.offset - offset + piece.data.len(),
                )
            },
        forall|at: int|
            offset <= at < offset + data.len() ==> #[trigger] some_piece_holds(
                pieces(data, offset, size),
                at,
            ),
    decreases data.len(),
{
    if data.len() > 0 {
        let length = lesser(size as int, data.len() as int);
        let rest = data.subrange(length, data.len() as int);
        let tail = pieces(rest, (offset + length) as nat, size);
        let all = pieces(data, offset, size);
        law_pieces_hold_the_data(rest, (offset + length) as nat, size);
        assert forall|i: int| #![trigger all[i]] 0 <= i < all.len() implies {
            let piece = all[i];
            &&& offset <= piece.offset
            &&& 0 < piece.data.len() <= size
            &&& piece.offset + piece.data.len() <= offset + data.len()
            &&& piece.data == data.subrange(
                piece.offset - offset,
                piece.offset - offset + piece.data.len(),
            )
        } by {
            if i > 0 {
                let piece = tail[i - 1];
                assert(all[i] == piece);
                let start = piece.offset - offset;
                assert(piece.data =~= data.subrange(start, start + piece.data.len()));
            }
        }
        assert forall|at: int| offset <= at < offset + data.len() implies #[trigger] some_piece_holds(
            all,
            at,
        ) by {
            if at < offset + length {
                assert(all[0].offset <= at < all[0].offset + all[0].data.len());
            } else {
                assert(some_piece_holds(tail, at));
                let j = choose|j: int|
                    0 <= j < tail.len() && (#[trigger] tail[j]).offset <= at < tail[j].offset
                        + tail[j].data.len();
                assert(all[j + 1] == tail[j]);
            }
        }
    }
}

/// What two queues hold, one behind the other.
proof fn lemma_total_joined(first: Seq<PendingView>, second: Seq<PendingView>)
    ensures
        total_length(first + second) == total_length(first) + total_length(second),
    decreases first.len(),
{
    if first.len() == 0 {
        assert(first + second =~= second);
    } else {
        let all = first + second;
        let rest = first.subrange(1, first.len() as int);
        lemma_total_joined(rest, second);
        assert(all.subrange(1, all.len() as int) =~= rest + second);
    }
}

/// A queue of one piece.
proof fn lemma_total_one(piece: PendingView)
    ensures
        total_length(seq![piece]) == piece.data.len(),
{
    assert(seq![piece].subrange(1, 1) =~= Seq::empty());
    reveal_with_fuel(total_length, 2);
}

/// Marking the end of the stream adds no bytes.
proof fn lemma_total_with_fin(queue: Seq<PendingView>)
    ensures
        total_length(with_fin(queue)) == total_length(queue),
{
    if queue.len() > 0 {
        let most = queue.drop_last();
        let last = queue.last();
        let marked = PendingView { fin: true, ..last };
        lemma_total_joined(most, seq![last]);
        lemma_total_joined(most, seq![marked]);
        lemma_total_one(last);
        lemma_total_one(marked);
        assert(queue =~= most + seq![last]);
        assert(with_fin(queue) =~= most + seq![marked]);
    }
}

/// The pieces of the data hold as many bytes as the data.
pub proof fn law_pieces_count_the_data(data: Seq<u8>, offset: nat, size: nat)
    requires
        size > 0,
    ensures
        total_length(pieces(data, offset, size)) == data.len(),
    decreases data.len(),
{
    if data.len() > 0 {
        let length = lesser(size as int, data.len() as int);
        let rest = data.subrange(length, data.len() as int);
        let tail = pieces(rest, (offset + length) as nat, size);
        let all = pieces(data, offset, size);
        law_pieces_count_the_data(rest, (offset + length) as nat, size);
        assert(all.subrange(1, all.len() as int) =~= tail);
    }
}

/// Bytes that are written are counted.
pub proof fn law_written_bytes_are_counted(
    view: SendView,
    data: Seq<u8>,
    fin: bool,
    max_buffer: usize,
    max_chunk: usize,
)
    requires
        view.counts_its_bytes(),
        write_error(view, data.len(), max_buffer) is None,
    ensures
        written(view, data, fin, max_chunk).counts_its_bytes(),
{
    let size = greater(max_chunk as int, 1) as nat;
    let more = pieces(data, view.next_offset as nat, size);
    let queued = view.queue + more;
    law_pieces_count_the_data(data, view.next_offset as nat, size);
    lemma_total_joined(view.queue, more);
    lemma_total_with_fin(queued);
    let end = PendingView {
        offset: (view.next_offset + data.len()) as u64,
        data: Seq::empty(),
        fin: true,
        retransmit_count: 0,
    };
    lemma_total_joined(queued, seq![end]);
    lemma_total_one(end);
    assert(queued.push(end) =~= queued + seq![end]);
}

/// The bytes of a piece that is put back at the front are counted.
pub proof fn law_requeued_bytes_are_counted(queue: Seq<PendingView>, piece: PendingView)
    ensures
        total_length(seq![piece] + queue) == piece.data.len() + total_length(queue),
{
    lemma_total_joined(seq![piece], queue);
    lemma_total_one(piece);
}

/// The sending side of a stream.
#[derive(Debug)]
pub struct SendStream {
    stream_id: StreamId,
    max_offset: u64,
    next_offset: u64,
    queued_bytes: usize,
    fin_requested: bool,
    fin_sent: bool,
    queue: VecDeque<PendingData>,
}

impl View for SendStream {
    type V = SendView;

    closed spec fn view(&self) -> SendView {
        SendView {
            stream_id: self.stream_id,
            max_offset: self.max_offset,
            next_offset: self.next_offset,
            queued_bytes: self.queued_bytes,
            fin_requested: self.fin_requested,
            fin_sent: self.fin_sent,
            queue: views(self.queue@),
        }
    }
}

/// The pieces, as contracts see them.
spec fn views(queue: Seq<PendingData>) -> Seq<PendingView> {
    Seq::new(queue.len(), |i: int| queue[i]@)
}

impl SendStream {
    /// Whether a piece waits.
    pub fn has_pending_data(&self) -> (pending: bool)
        ensures
            pending <==> self@.queue.len() > 0,
    {
        self.queue.len() != 0
    }

    /// A stream of which nothing was written.
    pub fn new(stream_id: StreamId, max_offset: u64) -> (stream: Self)
        ensures
            stream@ == (SendView {
                stream_id,
                max_offset,
                next_offset: 0,
                queued_bytes: 0,
                fin_requested: false,
                fin_sent: false,
                queue: Seq::empty(),
            }),
            stream@.counts_its_bytes(),
    {
        let stream = SendStream {
            stream_id,
            max_offset,
            next_offset: 0,
            queued_bytes: 0,
            fin_requested: false,
            fin_sent: false,
            queue: VecDeque::new(),
        };
        assert(stream@.queue =~= Seq::empty());
        stream
    }

    /// Offset up to which the other side lets this one send.
    pub fn max_offset(&self) -> (offset: u64)
        ensures
            offset == self@.max_offset,
    {
        self.max_offset
    }

    /// Offset of the next byte to be written.
    pub fn next_offset(&self) -> (offset: u64)
        ensures
            offset == self@.next_offset,
    {
        self.next_offset
    }

    /// Queues bytes in pieces of at most `max_chunk`. All are taken or none.
    pub fn write(&mut self, data: &[u8], fin: bool, max_buffer: usize, max_chunk: usize) -> (result:
        Result<usize, CoreError>)
        ensures
            result is Ok <==> write_error(old(self)@, data@.len(), max_buffer) is None,
            result matches Ok(count) ==> count == data@.len() && final(self)@ == written(
                old(self)@,
                data@,
                fin,
                max_chunk,
            ),
            result matches Err(error) ==> write_error(old(self)@, data@.len(), max_buffer) == Some(
                error,
            ) && final(self)@ == old(self)@,
            old(self)@.counts_its_bytes() ==> final(self)@.counts_its_bytes(),
    {
        if self.fin_requested || self.fin_sent {
            return Err(CoreError::InvalidState { operation: "write after FIN" });
        }
        let available: usize = max_buffer.saturating_sub(self.queued_bytes);
        if data.len() > available {
            return Err(CoreError::SendBufferFull);
        }
        let chunk_size: usize = if max_chunk < 1 {
            1
        } else {
            max_chunk
        };
        let end: u64 = match self.next_offset.checked_add(data.len() as u64) {
            Some(end) => end,
            None => {
                return Err(CoreError::InvalidOffset);
            },
        };
        if end > self.max_offset {
            return Err(CoreError::FlowControlViolation { stream_id: Some(self.stream_id) });
        }
        let ghost before = self@;
        let ghost all = pieces(data@, before.next_offset as nat, chunk_size as nat);
        let mut offset: u64 = self.next_offset;
        let mut start: usize = 0;
        proof {
            assert(data@.subrange(0, data@.len() as int) =~= data@);
            assert(views(self.queue@) + all =~= before.queue + all);
        }
        while start < data.len()
            invariant
                start <= data@.len(),
                chunk_size >= 1,
                offset == before.next_offset + start,
                before.next_offset + data@.len() <= u64::MAX,
                views(self.queue@) + pieces(
                    data@.subrange(start as int, data@.len() as int),
                    offset as nat,
                    chunk_size as nat,
                ) == before.queue + all,
                self.stream_id == before.stream_id,
                self.max_offset == before.max_offset,
                self.next_offset == before.next_offset,
                self.queued_bytes == before.queued_bytes,
                self.fin_requested == before.fin_requested,
                self.fin_sent == before.fin_sent,
            decreases data@.len() - start,
        {
            let length: usize = if data.len() - start < chunk_size {
                data.len() - start
            } else {
                chunk_size
            };
            let chunk: Vec<u8> = copy_range(data, start, start + length);
            let ghost queue_now = self.queue@;
            self.queue.push_back(
                PendingData { offset, data: chunk, fin: false, retransmit_count: 0 },
            );
            proof {
                let rest = data@.subrange(start as int, data@.len() as int);
                assert(rest.subrange(0, length as int) =~= chunk@);
                assert(rest.subrange(length as int, rest.len() as int) =~= data@.subrange(
                    start + length,
                    data@.len() as int,
                ));
                assert(views(self.queue@) =~= views(queue_now).push(self.queue@.last()@));
                assert(views(self.queue@) + pieces(
                    data@.subrange(start + length, data@.len() as int),
                    (offset + length) as nat,
                    chunk_size as nat,
                ) =~= before.queue + all);
            }
            offset = offset + length as u64;
            start = start + length;
        }
        proof {
            assert(views(self.queue@) =~= before.queue + all);
        }
        self.next_offset = offset;
        self.queued_bytes = self.queued_bytes + data.len();
        if fin {
            self.fin_requested = true;
            if data.len() == 0 {
                let ghost queue_now = self.queue@;
                self.queue.push_back(
                    PendingData { offset, data: Vec::new(), fin: true, retransmit_count: 0 },
                );
                assert(views(self.queue@) =~= views(queue_now).push(self.queue@.last()@));
                assert(self.queue@.last()@.data =~= Seq::empty());
            } else {
                let ghost queue_now = self.queue@;
                proof {
                    assert(all.len() > 0);
                    assert(queue_now.len() == views(queue_now).len());
                }
                match self.queue.pop_back() {
                    Some(last) => {
                        self.queue.push_back(
                            PendingData {
                                offset: last.offset,
                                data: last.data,
                                fin: true,
                                retransmit_count: last.retransmit_count,
                            },
                        );
                        assert(views(self.queue@) =~= with_fin(views(queue_now)));
                    },
                    None => {},
                }
            }
        }
        assert(self@.queue =~= written(before, data@, fin, max_chunk).queue);
        proof {
            if before.counts_its_bytes() {
                law_written_bytes_are_counted(before, data@, fin, max_buffer, max_chunk);
            }
        }
        Ok(data.len())
    }

    /// Takes the first piece out of the queue.
    pub fn pop_sendable(&mut self) -> (item: Option<PendingData>)
        ensures
            item is Some <==> old(self)@.queue.len() > 0,
            item is None ==> final(self)@ == old(self)@,
            item matches Some(piece) ==> {
                &&& piece@ == old(self)@.queue[0]
                &&& final(self)@ == (SendView {
                    queue: old(self)@.queue.subrange(1, old(self)@.queue.len() as int),
                    queued_bytes: greater(
                        old(self)@.queued_bytes - piece@.data.len(),
                        0,
                    ) as usize,
                    fin_sent: old(self)@.fin_sent || piece@.fin,
                    ..old(self)@
                })
            },
            old(self)@.counts_its_bytes() ==> final(self)@.counts_its_bytes(),
    {
        let ghost queue_before = self.queue@;
        match self.queue.pop_front() {
            None => None,
            Some(item) => {
                self.queued_bytes = self.queued_bytes.saturating_sub(item.data.len());
                if item.fin {
                    self.fin_sent = true;
                }
                assert(views(self.queue@) =~= views(queue_before).subrange(
                    1,
                    queue_before.len() as int,
                ));
                Some(item)
            },
        }
    }

    /// The first piece of the queue.
    pub fn front_sendable(&self) -> (item: Option<&PendingData>)
        ensures
            item is Some <==> self@.queue.len() > 0,
            item matches Some(piece) ==> piece@ == self@.queue[0],
    {
        if self.queue.len() == 0 {
            None
        } else {
            Some(&self.queue[0])
        }
    }

    /// Puts a piece that was lost or could not be sent back at the front.
    pub fn requeue(&mut self, frame: &StreamData, retransmit_count: u32)
        ensures
            final(self)@ == (SendView {
                queue: seq![
                    PendingView {
                        offset: frame.offset,
                        data: frame.data@,
                        fin: frame.fin,
                        retransmit_count,
                    },
                ] + old(self)@.queue,
                queued_bytes: lesser(
                    old(self)@.queued_bytes + frame.data@.len(),
                    usize::MAX as int,
                ) as usize,
                fin_sent: old(self)@.fin_sent && !frame.fin,
                ..old(self)@
            }),
            old(self)@.counts_its_bytes() && old(self)@.queued_bytes + frame.data@.len()
                <= usize::MAX ==> final(self)@.counts_its_bytes(),
    {
        let ghost queue_before = self.queue@;
        let piece = PendingData {
            offset: frame.offset,
            data: copy_bytes(&frame.data),
            fin: frame.fin,
            retransmit_count,
        };
        let ghost view = piece@;
        self.queue.push_front(piece);
        self.queued_bytes = self.queued_bytes.saturating_add(frame.data.len());
        if frame.fin {
            self.fin_sent = false;
        }
        proof {
            assert(views(self.queue@) =~= seq![view] + views(queue_before));
            law_requeued_bytes_are_counted(views(queue_before), view);
        }
    }

    /// Raises the offset up to which the other side lets this one send.
    pub fn update_window(&mut self, max_offset: u64)
        ensures
            final(self)@ == (SendView {
                max_offset: greater(old(self)@.max_offset as int, max_offset as int) as u64,
                ..old(self)@
            }),
    {
        if self.max_offset < max_offset {
            self.max_offset = max_offset;
        }
    }
}

} // verus!
