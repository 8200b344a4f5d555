//! Receiving side of a stream: puts bytes in order.

use std::collections::VecDeque;

use vstd::prelude::*;
use vstd::set_lib::{lemma_int_range, lemma_set_disjoint_lens, set_int_range};

use crate::bytes::copy_range;
use crate::ordered_map::OrderedMap;
use crate::reliable_core::congestion::{greater, lesser};
use crate::reliable_core::error::CoreError;
use crate::wire::StreamId;

verus! {

/// Whether a segment holds the byte at `offset`.
pub open spec fn holds_byte(segments: Map<u64, Vec<u8>>, start: u64, offset: int) -> bool {
    segments.contains_key(start) && start <= offset < start + segments[start]@.len()
}

/// Whether some segment holds the byte at `offset`.
pub open spec fn covered(segments: Map<u64, Vec<u8>>, offset: int) -> bool {
    exists|start: u64| #[trigger] holds_byte(segments, start, offset)
}

/// The byte at `offset`, which some segment holds.
pub open spec fn byte_at(segments: Map<u64, Vec<u8>>, offset: int) -> u8 {
    let start = choose|start: u64| #[trigger] holds_byte(segments, start, offset);
    segments[start]@[offset - start]
}

/// No segment is empty, none ends past the last offset, and no two overlap.
pub open spec fn segments_ok(segments: Map<u64, Vec<u8>>) -> bool {
    &&& forall|start: u64| #[trigger]
        segments.contains_key(start) ==> 0 < segments[start]@.len() && start
            + segments[start]@.len() <= u64::MAX
    &&& forall|left: u64, right: u64| #[trigger]
        segments.contains_key(left) && #[trigger] segments.contains_key(right) && left < right
            ==> left + segments[left]@.len() <= right
}

/// Number of offsets from `from` up to `to` at which there is no byte.
pub open spec fn missing_count(bytes: Map<int, u8>, from: int, to: int) -> nat
    decreases to - from,
{
    if from >= to {
        0
    } else if bytes.contains_key(to - 1) {
        missing_count(bytes, from, to - 1)
    } else {
        missing_count(bytes, from, to - 1) + 1
    }
}

/// What a stream has received, as contracts see it.
#[verifier::ext_equal]
pub struct ReceiveView {
    pub stream_id: StreamId,
    /// Offset of the first byte that has not come.
    pub next_offset: u64,
    /// Offset at which the stream ends, once that is known.
    pub final_offset: Option<u64>,
    /// Offset up to which the other side may send.
    pub max_offset: u64,
    /// Bytes that have come after a gap, by offset.
    pub pending: Map<int, u8>,
    /// Bytes in order that have not been read.
    pub ready: Seq<u8>,
}

/// Why bytes at `offset` are refused.
pub open spec fn insert_error(
    view: ReceiveView,
    offset: u64,
    length: nat,
    fin: bool,
) -> Option<CoreError> {
    if offset + length > u64::MAX {
        Some(CoreError::InvalidOffset)
    } else if offset + length > view.max_offset {
        Some(CoreError::FlowControlViolation { stream_id: Some(view.stream_id) })
    } else if view.final_offset matches Some(end) && (if fin {
        end != offset + length
    } else {
        offset + length > end
    }) {
        Some(CoreError::InvalidOffset)
    } else {
        None
    }
}

/// The bytes after a gap and those of `data` that had not come: what was there
/// before stays.
pub open spec fn merged(view: ReceiveView, offset: u64, data: Seq<u8>) -> Map<int, u8> {
    Map::new(
        |at: int|
            view.pending.contains_key(at) || (view.next_offset <= at && offset <= at < offset
                + data.len()),
        |at: int|
            if view.pending.contains_key(at) {
                view.pending[at]
            } else {
                data[at - offset]
            },
    )
}

/// What a stream has received once `bytes` have come after `before`: the bytes
/// without a gap become ready, the others wait.
pub open spec fn delivered(before: ReceiveView, bytes: Map<int, u8>, after: ReceiveView) -> bool {
    &&& after.stream_id == before.stream_id
    &&& after.max_offset == before.max_offset
    &&& after.next_offset >= before.next_offset
    &&& forall|at: int|
        before.next_offset <= at < after.next_offset ==> #[trigger] bytes.contains_key(at)
    &&& !bytes.contains_key(after.next_offset as int)
    &&& after.ready == before.ready + Seq::new(
        (after.next_offset - before.next_offset) as nat,
        |i: int| bytes[before.next_offset + i],
    )
    &&& after.pending == Map::new(
        |at: int| bytes.contains_key(at) && at >= after.next_offset,
        |at: int| bytes[at],
    )
}

/// Bytes of a stream from `start` up to `end`.
#[derive(Debug, Clone, Copy, PartialEq, Eq, Structural)]
pub struct Span {
    pub start: u64,
    pub end: u64,
}

/// Whether one of the first `count` spans holds the offset.
spec fn in_spans(spans: Seq<Span>, count: int, offset: int) -> bool {
    exists|i: int|
        0 <= i < count && (#[trigger] spans[i]).start <= offset < spans[i].end
}

/// Number of bytes of the first `count` spans.
spec fn spans_total(spans: Seq<Span>, count: int) -> nat
    decreases count,
{
    if count <= 0 {
        0
    } else {
        spans_total(spans, count - 1) + (spans[count - 1].end - spans[count - 1].start) as nat
    }
}

/// The spans rise and none is empty.
spec fn spans_ok(spans: Seq<Span>, from: int, to: int) -> bool {
    &&& forall|i: int|
        0 <= i < spans.len() ==> from <= (#[trigger] spans[i]).start < spans[i].end <= to
    &&& forall|i: int, j: int|
        0 <= i < j < spans.len() ==> (#[trigger] spans[i]).end <= (#[trigger] spans[j]).start
}

proof fn lemma_holder(segments: Map<u64, Vec<u8>>, start: u64, offset: int)
    requires
        segments_ok(segments),
        holds_byte(segments, start, offset),
    ensures
        covered(segments, offset),
        byte_at(segments, offset) == segments[start]@[offset - start],
{
    let other = choose|other: u64| #[trigger] holds_byte(segments, other, offset);
    assert(holds_byte(segments, other, offset));
    if other < start {
        assert(other + segments[other]@.len() <= start);
    } else if start < other {
        assert(start + segments[start]@.len() <= other);
    }
}

/// The bytes that the segments hold.
pub open spec fn segment_bytes(segments: Map<u64, Vec<u8>>) -> Map<int, u8> {
    Map::new(|at: int| covered(segments, at), |at: int| byte_at(segments, at))
}

/// A segment where no byte was adds its bytes.
proof fn lemma_segment_added(segments: Map<u64, Vec<u8>>, start: u64, data: Vec<u8>)
    requires
        segments_ok(segments),
        0 < data@.len(),
        start + data@.len() <= u64::MAX,
        forall|at: int| start <= at < start + data@.len() ==> !#[trigger] covered(segments, at),
    ensures
        segments_ok(segments.insert(start, data)),
        forall|at: int| #[trigger]
            covered(segments.insert(start, data), at) <==> covered(segments, at) || start <= at
                < start + data@.len(),
        forall|at: int|
            covered(segments, at) ==> #[trigger] byte_at(segments.insert(start, data), at)
                == byte_at(segments, at),
        forall|at: int|
            start <= at < start + data@.len() ==> #[trigger] byte_at(
                segments.insert(start, data),
                at,
            ) == data@[at - start],
{
    let after = segments.insert(start, data);
    assert(!segments.contains_key(start)) by {
        if segments.contains_key(start) {
            assert(holds_byte(segments, start, start as int));
            assert(covered(segments, start as int));
        }
    }
    assert forall|left: u64, right: u64| #[trigger]
        after.contains_key(left) && #[trigger] after.contains_key(right) && left < right implies left
        + after[left]@.len() <= right by {
        if left == start {
            if right < start + data@.len() {
                assert(segments.contains_key(right));
                assert(holds_byte(segments, right, right as int));
                assert(covered(segments, right as int));
            }
        } else if right == start {
            assert(segments.contains_key(left));
            if start < left + segments[left]@.len() {
                assert(holds_byte(segments, left, start as int));
                assert(covered(segments, start as int));
            }
        } else {
            assert(segments.contains_key(left) && segments.contains_key(right));
        }
    }
    assert forall|at: int| #[trigger] covered(after, at) <==> covered(segments, at) || start <= at
        < start + data@.len() by {
        if covered(after, at) {
            let key = choose|key: u64| #[trigger] holds_byte(after, key, at);
            assert(holds_byte(after, key, at));
            if key != start {
                assert(holds_byte(segments, key, at));
            }
        }
        if covered(segments, at) {
            let key = choose|key: u64| #[trigger] holds_byte(segments, key, at);
            assert(holds_byte(segments, key, at));
            assert(holds_byte(after, key, at));
        }
        if start <= at < start + data@.len() {
            assert(holds_byte(after, start, at));
        }
    }
    assert forall|at: int| covered(segments, at) implies #[trigger] byte_at(after, at) == byte_at(
        segments,
        at,
    ) by {
        let key = choose|key: u64| #[trigger] holds_byte(segments, key, at);
        assert(holds_byte(segments, key, at));
        lemma_holder(segments, key, at);
        assert(holds_byte(after, key, at));
        lemma_holder(after, key, at);
    }
    assert forall|at: int| start <= at < start + data@.len() implies #[trigger] byte_at(after, at)
        == data@[at - start] by {
        assert(holds_byte(after, start, at));
        lemma_holder(after, start, at);
    }
}

/// Taking a segment out takes its bytes out.
proof fn lemma_segment_removed(segments: Map<u64, Vec<u8>>, start: u64)
    requires
        segments_ok(segments),
        segments.contains_key(start),
    ensures
        segments_ok(segments.remove(start)),
        forall|at: int| #[trigger]
            covered(segments.remove(start), at) <==> covered(segments, at) && !(start <= at < start
                + segments[start]@.len()),
        forall|at: int|
            covered(segments.remove(start), at) ==> #[trigger] byte_at(segments.remove(start), at)
                == byte_at(segments, at),
        forall|at: int|
            start <= at < start + segments[start]@.len() ==> #[trigger] covered(segments, at),
        forall|at: int|
            start <= at < start + segments[start]@.len() ==> #[trigger] byte_at(segments, at)
                == segments[start]@[at - start],
{
    let after = segments.remove(start);
    assert forall|left: u64, right: u64| #[trigger]
        after.contains_key(left) && #[trigger] after.contains_key(right) && left < right implies left
        + after[left]@.len() <= right by {
        assert(segments.contains_key(left) && segments.contains_key(right));
    }
    assert forall|at: int| #[trigger] covered(after, at) <==> covered(segments, at) && !(start <= at
        < start + segments[start]@.len()) by {
        if covered(after, at) {
            let key = choose|key: u64| #[trigger] holds_byte(after, key, at);
            assert(holds_byte(after, key, at));
            assert(holds_byte(segments, key, at));
            if start <= at < start + segments[start]@.len() {
                if key < start {
                    assert(key + segments[key]@.len() <= start);
                } else {
                    assert(start + segments[start]@.len() <= key);
                }
            }
        }
        if covered(segments, at) && !(start <= at < start + segments[start]@.len()) {
            let key = choose|key: u64| #[trigger] holds_byte(segments, key, at);
            assert(holds_byte(segments, key, at));
            assert(holds_byte(after, key, at));
        }
    }
    assert forall|at: int| covered(after, at) implies #[trigger] byte_at(after, at) == byte_at(
        segments,
        at,
    ) by {
        let key = choose|key: u64| #[trigger] holds_byte(after, key, at);
        assert(holds_byte(after, key, at));
        lemma_holder(after, key, at);
        assert(holds_byte(segments, key, at));
        lemma_holder(segments, key, at);
    }
    assert forall|at: int| start <= at < start + segments[start]@.len() implies #[trigger] covered(
        segments,
        at,
    ) by {
        assert(holds_byte(segments, start, at));
    }
    assert forall|at: int| start <= at < start + segments[start]@.len() implies #[trigger] byte_at(
        segments,
        at,
    ) == segments[start]@[at - start] by {
        assert(holds_byte(segments, start, at));
        lemma_holder(segments, start, at);
    }
}

/// Offsets that are all filled, or all missing, in the count of the missing.
proof fn lemma_missing(bytes: Map<int, u8>, from: int, middle: int, to: int)
    requires
        from <= middle <= to,
    ensures
        (forall|at: int| middle <= at < to ==> #[trigger] bytes.contains_key(at)) ==> missing_count(
            bytes,
            from,
            to,
        ) == missing_count(bytes, from, middle),
        (forall|at: int| middle <= at < to ==> !#[trigger] bytes.contains_key(at))
            ==> missing_count(bytes, from, to) == missing_count(bytes, from, middle) + (to
            - middle),
    decreases to - middle,
{
    if middle < to {
        lemma_missing(bytes, from, middle, to - 1);
    }
}

/// No more is missing than there are offsets.
pub proof fn lemma_missing_bounded(bytes: Map<int, u8>, from: int, to: int)
    ensures
        from <= to ==> missing_count(bytes, from, to) <= to - from,
        from >= to ==> missing_count(bytes, from, to) == 0,
    decreases to - from,
{
    if from < to {
        lemma_missing_bounded(bytes, from, to - 1);
    }
}

/// The receiving side of a stream.
#[derive(Debug)]
pub struct ReceiveStream {
    stream_id: StreamId,
    next_offset: u64,
    final_offset: Option<u64>,
    max_offset: u64,
    segments: OrderedMap<Vec<u8>>,
    ready: VecDeque<u8>,
}

impl View for ReceiveStream {
    type V = ReceiveView;

    closed spec fn view(&self) -> ReceiveView {
        ReceiveView {
            stream_id: self.stream_id,
            next_offset: self.next_offset,
            final_offset: self.final_offset,
            max_offset: self.max_offset,
            pending: segment_bytes(self.segments@),
            ready: self.ready@,
        }
    }
}

/// Number of bytes in the first `count` segments.
spec fn segments_total(segments: Map<u64, Vec<u8>>, keys: Seq<u64>, count: int) -> nat
    decreases count,
{
    if count <= 0 {
        0
    } else {
        segments_total(segments, keys, count - 1) + segments[keys[count - 1]]@.len()
    }
}

/// Offsets of the bytes in the first `count` segments.
spec fn first_bytes(segments: Map<u64, Vec<u8>>, keys: Seq<u64>, count: int) -> Set<int> {
    Set::new(
        |at: int| exists|i: int| 0 <= i < count && #[trigger] holds_byte(segments, keys[i], at),
    )
}

/// There are as many bytes in the segments as offsets.
proof fn lemma_segments_total(segments: Map<u64, Vec<u8>>, keys: Seq<u64>, count: int)
    requires
        segments_ok(segments),
        0 <= count <= keys.len(),
        forall|i: int, j: int| 0 <= i < j < keys.len() ==> keys[i] < keys[j],
        forall|i: int| 0 <= i < keys.len() ==> segments.contains_key(#[trigger] keys[i]),
    ensures
        first_bytes(segments, keys, count).finite(),
        first_bytes(segments, keys, count).len() == segments_total(segments, keys, count),
    decreases count,
{
    if count <= 0 {
        assert(first_bytes(segments, keys, count) =~= Set::empty());
    } else {
        lemma_segments_total(segments, keys, count - 1);
        let before = first_bytes(segments, keys, count - 1);
        let start = keys[count - 1];
        let own = set_int_range(start as int, start + segments[start]@.len());
        lemma_int_range(start as int, start + segments[start]@.len());
        assert(first_bytes(segments, keys, count) =~= before + own) by {
            assert forall|at: int| own.contains(at) implies first_bytes(
                segments,
                keys,
                count,
            ).contains(at) by {
                assert(holds_byte(segments, keys[count - 1], at));
            }
        }
        assert(before.disjoint(own)) by {
            assert forall|at: int| before.contains(at) implies !own.contains(at) by {
                let i = choose|i: int|
                    0 <= i < count - 1 && #[trigger] holds_byte(segments, keys[i], at);
                assert(keys[i] < keys[count - 1]);
            }
        }
        lemma_set_disjoint_lens(before, own);
    }
}

impl ReceiveView {
    /// Bytes that have come and have not been read.
    pub open spec fn buffered(self) -> nat {
        self.ready.len() + self.pending.dom().len()
    }
}

impl ReceiveStream {
    /// The segments are in order and lie after the bytes that are ready.
    pub closed spec fn well_formed(&self) -> bool {
        &&& self.waiting()
        &&& !self.segments@.contains_key(self.next_offset)
    }

    /// The segments are in order and none lies before the next byte.
    spec fn waiting(&self) -> bool {
        &&& self.segments.well_formed()
        &&& segments_ok(self.segments@)
        &&& forall|start: u64| #[trigger]
            self.segments@.contains_key(start) ==> start >= self.next_offset
    }

    /// A stream of which nothing has come.
    pub fn new(stream_id: StreamId, max_offset: u64) -> (stream: Self)
        ensures
            stream.well_formed(),
            stream@ == (ReceiveView {
                stream_id,
                next_offset: 0,
                final_offset: None,
                max_offset,
                pending: Map::empty(),
                ready: Seq::empty(),
            }),
    {
        let stream = ReceiveStream {
            stream_id,
            next_offset: 0,
            final_offset: None,
            max_offset,
            segments: OrderedMap::new(),
            ready: VecDeque::new(),
        };
        proof {
            assert forall|at: int| !covered(stream.segments@, at) by {
                if covered(stream.segments@, at) {
                    let key = choose|key: u64| #[trigger] holds_byte(stream.segments@, key, at);
                    assert(holds_byte(stream.segments@, key, at));
                }
            }
            assert(stream@.pending =~= Map::empty());
        }
        stream
    }

    /// Offset of the first byte that has not come.
    pub fn next_offset(&self) -> (offset: u64)
        ensures
            offset == self@.next_offset,
    {
        self.next_offset
    }

    /// Offset up to which the other side may send.
    pub fn max_offset(&self) -> (offset: u64)
        ensures
            offset == self@.max_offset,
    {
        self.max_offset
    }

    /// Moves the offset up to which the other side may send.
    pub fn set_max_offset(&mut self, max_offset: u64)
        ensures
            final(self)@ == (ReceiveView { max_offset, ..old(self)@ }),
            old(self).well_formed() ==> final(self).well_formed(),
    {
        self.max_offset = max_offset;
    }

    /// Takes bytes that came for `offset` and counts those that had not come.
    /// `fin` says that the stream ends with them.
    pub fn insert(
        &mut self,
        offset: u64,
        data: &[u8],
        fin: bool,
    ) -> (result: Result<usize, CoreError>)
        requires
            old(self).well_formed(),
        ensures
            final(self).well_formed(),
            result is Ok <==> insert_error(old(self)@, offset, data@.len(), fin) is None,
            result matches Ok(count) ==> {
                &&& count == missing_count(
                    old(self)@.pending,
                    greater(offset as int, old(self)@.next_offset as int),
                    offset + data@.len(),
                )
                &&& delivered(old(self)@, merged(old(self)@, offset, data@), final(self)@)
                &&& final(self)@.final_offset == (if fin {
                    Some((offset + data@.len()) as u64)
                } else {
                    old(self)@.final_offset
                })
            },
            result matches Err(error) ==> {
                &&& insert_error(old(self)@, offset, data@.len(), fin) == Some(error)
                &&& final(self)@ == old(self)@
            },
    {
        let end: u64 = match offset.checked_add(data.len() as u64) {
            Some(end) => end,
            None => {
                return Err(CoreError::InvalidOffset);
            },
        };
        if end > self.max_offset {
            return Err(CoreError::FlowControlViolation { stream_id: Some(self.stream_id) });
        }
        match self.final_offset {
            Some(existing) => {
                if fin && existing != end {
                    return Err(CoreError::InvalidOffset);
                }
                if !fin && end > existing {
                    return Err(CoreError::InvalidOffset);
                }
            },
            None => {},
        }
        let ghost before = self@;
        let ghost segments_before = self.segments@;
        let ghost from = greater(offset as int, before.next_offset as int);
        if fin {
            self.final_offset = Some(end);
        }
        let spans = self.uncovered_ranges(offset, end);
        let mut new_bytes: usize = 0;
        let mut index: usize = 0;
        proof {
            lemma_missing_bounded(before.pending, from, end as int);
            assert forall|at: int| !in_spans(spans@, 0, at) by {}
        }
        while index < spans.len()
            invariant
                index <= spans@.len(),
                end == offset + data@.len(),
                data@.len() <= usize::MAX,
                from == greater(offset as int, before.next_offset as int),
                spans_ok(spans@, from, end as int),
                forall|at: int|
                    from <= at < end ==> (!#[trigger] covered(segments_before, at) <==> in_spans(
                        spans@,
                        spans@.len() as int,
                        at,
                    )),
                self.waiting(),
                segments_ok(segments_before),
                before.pending == segment_bytes(segments_before),
                self.next_offset == before.next_offset,
                self.stream_id == before.stream_id,
                self.max_offset == before.max_offset,
                self.ready@ == before.ready,
                self.final_offset == (if fin {
                    Some(end)
                } else {
                    before.final_offset
                }),
                new_bytes == spans_total(spans@, index as int),
                spans_total(spans@, spans@.len() as int) <= data@.len(),
                forall|at: int| #[trigger]
                    covered(self.segments@, at) <==> covered(segments_before, at) || in_spans(
                        spans@,
                        index as int,
                        at,
                    ),
                forall|at: int|
                    covered(segments_before, at) ==> #[trigger] byte_at(self.segments@, at)
                        == byte_at(segments_before, at),
                forall|at: int|
                    in_spans(spans@, index as int, at) ==> #[trigger] byte_at(self.segments@, at)
                        == data@[at - offset],
            decreases spans@.len() - index,
        {
            let span: Span = spans[index];
            let start_index: usize = (span.start - offset) as usize;
            let end_index: usize = (span.end - offset) as usize;
            let chunk = copy_range(data, start_index, end_index);
            proof {
                lemma_spans_total_grows(spans@, index as int + 1, spans@.len() as int);
                assert forall|at: int| span.start <= at < span.end implies !#[trigger] covered(
                    self.segments@,
                    at,
                ) by {
                    assert(in_spans(spans@, spans@.len() as int, at)) by {
                        assert(spans@[index as int].start <= at < spans@[index as int].end);
                    }
                    assert(!covered(segments_before, at));
                    if in_spans(spans@, index as int, at) {
                        let i = choose|i: int|
                            0 <= i < index && (#[trigger] spans@[i]).start <= at < spans@[i].end;
                        assert(spans@[i].end <= spans@[index as int].start);
                    }
                }
                lemma_segment_added(self.segments@, span.start, chunk);
            }
            new_bytes = new_bytes + chunk.len();
            let ghost segments_now = self.segments@;
            self.segments.insert(span.start, chunk);
            proof {
                assert forall|at: int| #[trigger] covered(self.segments@, at) <==> covered(
                    segments_before,
                    at,
                ) || in_spans(spans@, index as int + 1, at) by {
                    lemma_in_spans_next(spans@, index as int, at);
                    assert(covered(segments_now, at) <==> covered(segments_before, at) || in_spans(
                        spans@,
                        index as int,
                        at,
                    ));
                }
                assert forall|at: int| in_spans(
                    spans@,
                    index as int + 1,
                    at,
                ) implies #[trigger] byte_at(self.segments@, at) == data@[at - offset] by {
                    lemma_in_spans_next(spans@, index as int, at);
                    if in_spans(spans@, index as int, at) {
                        assert(covered(segments_now, at));
                        assert(byte_at(segments_now, at) == data@[at - offset]);
                    }
                }
                assert forall|at: int| covered(segments_before, at) implies #[trigger] byte_at(
                    self.segments@,
                    at,
                ) == byte_at(segments_before, at) by {
                    assert(covered(segments_now, at));
                    assert(byte_at(segments_now, at) == byte_at(segments_before, at));
                }
            }
            index = index + 1;
        }
        proof {
            let bytes = merged(before, offset, data@);
            assert forall|at: int| #[trigger] bytes.contains_key(at) <==> covered(
                self.segments@,
                at,
            ) by {
                if in_spans(spans@, spans@.len() as int, at) {
                    let i = choose|i: int|
                        0 <= i < spans@.len() && (#[trigger] spans@[i]).start <= at
                            < spans@[i].end;
                    assert(from <= at < end);
                }
                if covered(segments_before, at) {
                    assert(before.pending.contains_key(at));
                }
                if before.next_offset <= at && offset <= at < end {
                    assert(from <= at < end);
                    assert(covered(segments_before, at) || in_spans(
                        spans@,
                        spans@.len() as int,
                        at,
                    ));
                }
            }
            assert forall|at: int| #[trigger] bytes.contains_key(at) implies bytes[at] == byte_at(
                self.segments@,
                at,
            ) by {
                if !covered(segments_before, at) {
                    assert(in_spans(spans@, spans@.len() as int, at));
                }
            }
            assert(segment_bytes(self.segments@) =~= bytes);
        }
        let ghost middle = self@;
        self.deliver_contiguous();
        Ok(new_bytes)
    }

    /// Counts the bytes at `offset` that have not come.
    pub fn new_bytes(&self, offset: u64, data: &[u8]) -> (result: Result<usize, CoreError>)
        requires
            self.well_formed(),
        ensures
            match result {
                Ok(count) => {
                    &&& offset + data@.len() <= self@.max_offset
                    &&& count == missing_count(
                        self@.pending,
                        greater(offset as int, self@.next_offset as int),
                        offset + data@.len(),
                    )
                },
                Err(error) => if offset + data@.len() > u64::MAX {
                    error == CoreError::InvalidOffset
                } else {
                    offset + data@.len() > self@.max_offset && error == (
                    CoreError::FlowControlViolation { stream_id: Some(self@.stream_id) })
                },
            },
    {
        let end: u64 = match offset.checked_add(data.len() as u64) {
            Some(end) => end,
            None => {
                return Err(CoreError::InvalidOffset);
            },
        };
        if end > self.max_offset {
            return Err(CoreError::FlowControlViolation { stream_id: Some(self.stream_id) });
        }
        let spans = self.uncovered_ranges(offset, end);
        let ghost from = greater(offset as int, self@.next_offset as int);
        proof {
            lemma_missing_bounded(self@.pending, from, end as int);
        }
        let mut total: usize = 0;
        let mut index: usize = 0;
        while index < spans.len()
            invariant
                index <= spans@.len(),
                spans_ok(spans@, from, end as int),
                end == offset + data@.len(),
                data@.len() <= usize::MAX,
                from >= offset,
                total == spans_total(spans@, index as int),
                spans_total(spans@, spans@.len() as int) <= data@.len(),
            decreases spans@.len() - index,
        {
            proof {
                lemma_spans_total_grows(spans@, index as int + 1, spans@.len() as int);
            }
            let span: Span = spans[index];
            total = total + (span.end - span.start) as usize;
            index = index + 1;
        }
        Ok(total)
    }

    /// Takes at most `max_len` bytes that are ready.
    pub fn read(&mut self, max_len: usize) -> (data: Vec<u8>)
        requires
            old(self).well_formed(),
        ensures
            final(self).well_formed(),
            ({
                let amount = lesser(max_len as int, old(self)@.ready.len() as int);
                &&& data@ == old(self)@.ready.subrange(0, amount)
                &&& final(self)@ == (ReceiveView {
                    ready: old(self)@.ready.subrange(amount, old(self)@.ready.len() as int),
                    ..old(self)@
                })
            }),
    {
        let ghost ready = self.ready@;
        let amount: usize = if max_len < self.ready.len() {
            max_len
        } else {
            self.ready.len()
        };
        let mut data: Vec<u8> = Vec::with_capacity(amount);
        while data.len() < amount
            invariant
                amount <= ready.len(),
                data@.len() <= amount,
                data@ == ready.subrange(0, data@.len() as int),
                self.ready@ == ready.subrange(data@.len() as int, ready.len() as int),
                self.segments == old(self).segments,
                self.next_offset == old(self).next_offset,
                self.final_offset == old(self).final_offset,
                self.max_offset == old(self).max_offset,
                self.stream_id == old(self).stream_id,
            decreases amount - data@.len(),
        {
            let byte: u8 = self.ready.pop_front().unwrap();
            data.push(byte);
            proof {
                assert(data@ =~= ready.subrange(0, data@.len() as int));
                assert(self.ready@ =~= ready.subrange(data@.len() as int, ready.len() as int));
            }
        }
        data
    }

    /// Whether bytes are ready.
    pub fn readable(&self) -> (readable: bool)
        ensures
            readable <==> self@.ready.len() > 0,
    {
        self.ready.len() != 0
    }

    /// Whether every byte of the stream has come and has been read.
    pub fn is_finished(&self) -> (finished: bool)
        ensures
            finished <==> self@.final_offset == Some(self@.next_offset) && self@.ready.len() == 0,
    {
        match self.final_offset {
            Some(final_offset) => self.next_offset == final_offset && self.ready.len() == 0,
            None => false,
        }
    }

    /// Number of bytes that have come and have not been read, as far as it can
    /// be expressed.
    pub fn buffered_len(&self) -> (length: usize)
        requires
            self.well_formed(),
        ensures
            length == lesser(self@.buffered() as int, usize::MAX as int),
    {
        let mut total: usize = self.ready.len();
        let mut index: usize = 0;
        while index < self.segments.len()
            invariant
                self.well_formed(),
                index <= self.segments.keys().len(),
                total == lesser(
                    (self.ready@.len() + segments_total(
                        self.segments@,
                        self.segments.keys(),
                        index as int,
                    )) as int,
                    usize::MAX as int,
                ),
            decreases self.segments.keys().len() - index,
        {
            total = total.saturating_add(self.segments.value_at(index).len());
            index = index + 1;
        }
        proof {
            self.segments.lemma_keys();
            let keys = self.segments.keys();
            lemma_segments_total(self.segments@, keys, keys.len() as int);
            assert(first_bytes(self.segments@, keys, keys.len() as int)
                =~= self@.pending.dom()) by {
                assert forall|at: int| covered(self.segments@, at) implies first_bytes(
                    self.segments@,
                    keys,
                    keys.len() as int,
                ).contains(at) by {
                    let start = choose|start: u64| #[trigger]
                        holds_byte(self.segments@, start, at);
                    let i = keys.index_of(start);
                    assert(holds_byte(self.segments@, keys[i], at));
                }
            }
        }
        total
    }

    /// The spans of offsets from `offset` up to `end` that have not come.
    fn uncovered_ranges(&self, offset: u64, end: u64) -> (spans: Vec<Span>)
        requires
            self.segments.well_formed(),
            segments_ok(self.segments@),
            offset <= end,
        ensures
            ({
                let from = greater(offset as int, self.next_offset as int);
                &&& spans_ok(spans@, from, end as int)
                &&& forall|at: int|
                    from <= at < end ==> (!#[trigger] covered(self.segments@, at) <==> in_spans(
                        spans@,
                        spans@.len() as int,
                        at,
                    ))
                &&& spans_total(spans@, spans@.len() as int) == missing_count(
                    segment_bytes(self.segments@),
                    from,
                    end as int,
                )
            }),
    {
        let mut spans: Vec<Span> = Vec::new();
        let ghost bytes = segment_bytes(self.segments@);
        let start: u64 = if offset < self.next_offset {
            self.next_offset
        } else {
            offset
        };
        let mut cursor: u64 = start;
        let ghost from = start as int;
        if start >= end {
            proof {
                lemma_missing_bounded(bytes, from, end as int);
            }
            return spans;
        }
        let mut index: usize = 0;
        proof {
            self.segments.lemma_keys();
        }
        while index < self.segments.len() && cursor < end && self.segments.key_at(index) < end
            invariant
                self.segments.well_formed(),
                segments_ok(self.segments@),
                bytes == segment_bytes(self.segments@),
                from == start,
                start < end,
                start <= cursor,
                index <= self.segments.keys().len(),
                spans_ok(spans@, from, lesser(cursor as int, end as int)),
                forall|i: int, j: int|
                    0 <= i < j < self.segments.keys().len() ==> self.segments.keys()[i]
                        < self.segments.keys()[j],
                forall|key: u64| #[trigger]
                    self.segments@.contains_key(key) <==> self.segments.keys().contains(key),
                forall|i: int|
                    0 <= i < self.segments.keys().len() ==> self.segments@.contains_key(
                        #[trigger] self.segments.keys()[i],
                    ),
                forall|i: int|
                    0 <= i < index ==> (#[trigger] self.segments.keys()[i])
                        + self.segments@[self.segments.keys()[i]]@.len() <= cursor,
                forall|at: int|
                    from <= at < lesser(cursor as int, end as int) ==> (!#[trigger] covered(
                        self.segments@,
                        at,
                    ) <==> in_spans(spans@, spans@.len() as int, at)),
                spans_total(spans@, spans@.len() as int) == missing_count(
                    bytes,
                    from,
                    lesser(cursor as int, end as int),
                ),
            decreases self.segments.keys().len() - index,
        {
            let existing_start: u64 = self.segments.key_at(index);
            let existing_end: u64 = existing_start + self.segments.value_at(index).len() as u64;
            if existing_end > cursor {
                let ghost cursor_before = cursor;
                let ghost spans_before = spans@;
                proof {
                    // Before this segment and after the cursor there is no byte.
                    assert forall|at: int| cursor <= at < existing_start implies !#[trigger] covered(
                        self.segments@,
                        at,
                    ) by {
                        if covered(self.segments@, at) {
                            let key = choose|key: u64| #[trigger]
                                holds_byte(self.segments@, key, at);
                            assert(holds_byte(self.segments@, key, at));
                            let k = self.segments.keys().index_of(key);
                            assert(self.segments.keys()[k] == key);
                            if k < index {
                                assert(self.segments.keys()[k]
                                    + self.segments@[self.segments.keys()[k]]@.len() <= cursor);
                            } else if k > index {
                                assert(self.segments.keys()[index as int]
                                    < self.segments.keys()[k]);
                            }
                        }
                    }
                    assert forall|at: int| existing_start <= at
                        < existing_end implies #[trigger] covered(self.segments@, at) by {
                        assert(holds_byte(self.segments@, existing_start, at));
                    }
                }
                if existing_start > cursor {
                    spans.push(Span { start: cursor, end: existing_start });
                    proof {
                        lemma_missing(bytes, from, cursor as int, existing_start as int);
                        lemma_span_pushed(
                            spans_before,
                            spans@,
                            Span { start: cursor, end: existing_start },
                        );
                    }
                }
                let ghost reached = greater(cursor_before as int, existing_start as int);
                cursor = existing_end;
                proof {
                    let to = lesser(cursor as int, end as int);
                    lemma_missing(bytes, from, reached, to);
                    assert forall|at: int| from <= at < to implies (!#[trigger] covered(
                        self.segments@,
                        at,
                    ) <==> in_spans(spans@, spans@.len() as int, at)) by {
                        if existing_start > cursor_before {
                            lemma_in_spans_pushed(
                                spans_before,
                                spans@,
                                Span { start: cursor_before, end: existing_start },
                                at,
                            );
                        }
                        if at >= cursor_before {
                            if in_spans(spans_before, spans_before.len() as int, at) {
                                let i = choose|i: int|
                                    0 <= i < spans_before.len() && (
                                    #[trigger] spans_before[i]).start <= at < spans_before[i].end;
                                assert(spans_before[i].end <= cursor_before);
                            }
                        }
                    }
                }
            }
            index = index + 1;
        }
        if cursor < end {
            let ghost spans_before = spans@;
            proof {
                assert forall|at: int| cursor <= at < end implies !#[trigger] covered(
                    self.segments@,
                    at,
                ) by {
                    if covered(self.segments@, at) {
                        let key = choose|key: u64| #[trigger] holds_byte(self.segments@, key, at);
                        assert(holds_byte(self.segments@, key, at));
                        let k = self.segments.keys().index_of(key);
                        assert(self.segments.keys()[k] == key);
                        if k < index {
                            assert(self.segments.keys()[k]
                                + self.segments@[self.segments.keys()[k]]@.len() <= cursor);
                        } else if k > index {
                            assert(self.segments.keys()[index as int] < self.segments.keys()[k]);
                        }
                    }
                }
                lemma_missing(bytes, from, cursor as int, end as int);
            }
            spans.push(Span { start: cursor, end });
            proof {
                lemma_span_pushed(spans_before, spans@, Span { start: cursor, end });
                assert forall|at: int| from <= at < end implies (!#[trigger] covered(
                    self.segments@,
                    at,
                ) <==> in_spans(spans@, spans@.len() as int, at)) by {
                    lemma_in_spans_pushed(
                        spans_before,
                        spans@,
                        Span { start: cursor, end },
                        at,
                    );
                    if at >= cursor && in_spans(spans_before, spans_before.len() as int, at) {
                        let i = choose|i: int|
                            0 <= i < spans_before.len() && (#[trigger] spans_before[i]).start <= at
                                < spans_before[i].end;
                        assert(spans_before[i].end <= cursor);
                    }
                }
            }
        }
        spans
    }

    /// Makes the bytes without a gap ready.
    fn deliver_contiguous(&mut self)
        requires
            old(self).waiting(),
        ensures
            final(self).well_formed(),
            delivered(old(self)@, old(self)@.pending, final(self)@),
            final(self)@.final_offset == old(self)@.final_offset,
    {
        let ghost before = self@;
        let ghost bytes = before.pending;
        proof {
            assert(self.ready@ =~= before.ready + Seq::new(0, |i: int| bytes[before.next_offset
                + i]));
        }
        let mut more: bool = self.segments.contains_key(self.next_offset);
        while more
            invariant
                self.waiting(),
                more <==> self.segments@.contains_key(self.next_offset),
                bytes == before.pending,
                self.stream_id == before.stream_id,
                self.max_offset == before.max_offset,
                self.final_offset == before.final_offset,
                self.next_offset >= before.next_offset,
                forall|at: int|
                    before.next_offset <= at < self.next_offset ==> #[trigger] bytes.contains_key(
                        at,
                    ),
                self.ready@ == before.ready + Seq::new(
                    (self.next_offset - before.next_offset) as nat,
                    |i: int| bytes[before.next_offset + i],
                ),
                forall|at: int| #[trigger]
                    covered(self.segments@, at) <==> bytes.contains_key(at) && at
                        >= self.next_offset,
                forall|at: int|
                    covered(self.segments@, at) ==> #[trigger] byte_at(self.segments@, at)
                        == bytes[at],
            decreases u64::MAX - self.next_offset,
        {
            let start: u64 = self.next_offset;
            let ghost segments_now = self.segments@;
            proof {
                lemma_segment_removed(segments_now, start);
            }
            let data: Vec<u8> = self.segments.remove(start).unwrap();
            self.next_offset = start + data.len() as u64;
            let ghost ready_now = self.ready@;
            let mut index: usize = 0;
            while index < data.len()
                invariant
                    index <= data@.len(),
                    self.ready@ == ready_now + data@.subrange(0, index as int),
                    self.segments@ == segments_now.remove(start),
                    self.segments.well_formed(),
                    self.next_offset == start + data@.len(),
                    self.stream_id == before.stream_id,
                    self.max_offset == before.max_offset,
                    self.final_offset == before.final_offset,
                decreases data@.len() - index,
            {
                self.ready.push_back(data[index]);
                index = index + 1;
                assert(self.ready@ =~= ready_now + data@.subrange(0, index as int));
            }
            proof {
                assert forall|at: int| start <= at < start + data@.len() implies #[trigger] bytes.contains_key(
                    at,
                ) by {
                    assert(covered(segments_now, at));
                }
                assert forall|at: int| start <= at < start + data@.len() implies #[trigger] bytes[at]
                    == data@[at - start] by {
                    assert(covered(segments_now, at));
                    assert(byte_at(segments_now, at) == data@[at - start]);
                }
                assert(data@.subrange(0, data@.len() as int) =~= data@);
                let expected = before.ready + Seq::new(
                    (self.next_offset - before.next_offset) as nat,
                    |i: int| bytes[before.next_offset + i],
                );
                assert forall|i: int| 0 <= i < expected.len() implies self.ready@[i]
                    == expected[i] by {
                    if i >= ready_now.len() {
                        let at = before.next_offset + (i - before.ready.len());
                        assert(start <= at < start + data@.len());
                        assert(bytes[at] == data@[at - start]);
                    }
                }
                assert(self.ready@ =~= expected);
                assert forall|key: u64| #[trigger]
                    self.segments@.contains_key(key) implies key >= self.next_offset by {
                    assert(segments_now.contains_key(key));
                    assert(segments_now.contains_key(start));
                }
                assert forall|at: int| covered(self.segments@, at) implies #[trigger] byte_at(
                    self.segments@,
                    at,
                ) == bytes[at] by {
                    assert(covered(segments_now, at));
                    assert(byte_at(segments_now, at) == bytes[at]);
                }
            }
            more = self.segments.contains_key(self.next_offset);
        }
        proof {
            assert(!covered(self.segments@, self.next_offset as int)) by {
                if covered(self.segments@, self.next_offset as int) {
                    let key = choose|key: u64| #[trigger]
                        holds_byte(self.segments@, key, self.next_offset as int);
                    assert(holds_byte(self.segments@, key, self.next_offset as int));
                }
            }
            assert(!bytes.contains_key(self.next_offset as int));
            assert(self@.pending =~= Map::new(
                |at: int| bytes.contains_key(at) && at >= self.next_offset,
                |at: int| bytes[at],
            ));
        }
    }
}

proof fn lemma_spans_total_grows(spans: Seq<Span>, few: int, many: int)
    requires
        0 <= few <= many,
    ensures
        spans_total(spans, few) <= spans_total(spans, many),
    decreases many,
{
    if few < many {
        lemma_spans_total_grows(spans, few, many - 1);
    }
}

proof fn lemma_in_spans_next(spans: Seq<Span>, count: int, offset: int)
    requires
        0 <= count < spans.len(),
    ensures
        in_spans(spans, count + 1, offset) <==> in_spans(spans, count, offset)
            || spans[count].start <= offset < spans[count].end,
{
    if in_spans(spans, count + 1, offset) {
        let i = choose|i: int|
            0 <= i < count + 1 && (#[trigger] spans[i]).start <= offset < spans[i].end;
        if i < count {
            assert(in_spans(spans, count, offset));
        }
    }
    if in_spans(spans, count, offset) {
        let i = choose|i: int| 0 <= i < count && (#[trigger] spans[i]).start <= offset < spans[i].end;
        assert(0 <= i < count + 1);
    }
}

proof fn lemma_in_spans_pushed(before: Seq<Span>, after: Seq<Span>, span: Span, offset: int)
    requires
        after == before.push(span),
    ensures
        in_spans(after, after.len() as int, offset) <==> in_spans(
            before,
            before.len() as int,
            offset,
        ) || span.start <= offset < span.end,
{
    if in_spans(after, after.len() as int, offset) {
        let i = choose|i: int|
            0 <= i < after.len() && (#[trigger] after[i]).start <= offset < after[i].end;
        if i < before.len() {
            assert(before[i] == after[i]);
        }
    }
    if in_spans(before, before.len() as int, offset) {
        let i = choose|i: int|
            0 <= i < before.len() && (#[trigger] before[i]).start <= offset < before[i].end;
        assert(after[i] == before[i]);
    }
    assert(after[before.len() as int] == span);
}

proof fn lemma_span_pushed(before: Seq<Span>, after: Seq<Span>, span: Span)
    requires
        after == before.push(span),
        span.start <= span.end,
    ensures
        spans_total(after, after.len() as int) == spans_total(before, before.len() as int) + (
        span.end - span.start),
{
    lemma_total_prefix(before, after, before.len() as int);
}

proof fn lemma_total_prefix(before: Seq<Span>, after: Seq<Span>, count: int)
    requires
        count <= before.len() <= after.len(),
        forall|i: int| 0 <= i < count ==> before[i] == after[i],
    ensures
        spans_total(before, count) == spans_total(after, count),
    decreases count,
{
    if count > 0 {
        lemma_total_prefix(before, after, count - 1);
    }
}

} // verus!
