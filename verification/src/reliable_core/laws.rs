//! What holds of a connection as a whole.

use vstd::prelude::*;
use vstd::set_lib::{lemma_int_range, lemma_set_disjoint_lens, set_int_range};

use crate::reliable_core::ack::{first_ranges, ranges_with};
use crate::reliable_core::congestion::{greater, lesser};
use crate::reliable_core::error::CoreError;
use crate::reliable_core::receive::{delivered, merged, missing_count, ReceiveView};
use crate::reliable_core::rtt::{backed_off, backoff_undone, measured, RttEstimator};
use crate::reliable_core::send::{law_pieces_hold_the_data, pieces, some_piece_holds};
use crate::reliable_core::streams::{after_read, StreamView};
use crate::reliable_core::transition::{
    ack_applied, ack_done, ack_follows, ack_taken, acks_done, answer_given, datagram_done,
    frames_taken, packet_noted, repeated, ConnectionView,
};
use crate::reliable_core::transport::{
    lemma_runs_send, only_sending_changed, rising_numbers, AckRun,
};
use crate::wire::{ranges_hold, AckRange, AckView, FrameView, PacketView, ProtocolError, Wire};

verus! {

/// What a stream has received is part of the bytes that were sent, each where it
/// belongs.
pub open spec fn agrees(view: ReceiveView, sent: Seq<u8>) -> bool {
    &&& view.ready.len() <= view.next_offset <= sent.len()
    &&& view.ready == sent.subrange(
        view.next_offset - view.ready.len(),
        view.next_offset as int,
    )
    &&& forall|at: int| #[trigger]
        view.pending.contains_key(at) ==> view.next_offset < at < sent.len() && view.pending[at]
            == sent[at]
}

/// A piece of the bytes that were sent.
pub open spec fn is_part(offset: u64, data: Seq<u8>, sent: Seq<u8>) -> bool {
    &&& offset + data.len() <= sent.len()
    &&& data == sent.subrange(offset as int, offset + data.len())
}

/// Whether the byte at this offset has come.
pub open spec fn has_come(view: ReceiveView, at: int) -> bool {
    at < view.next_offset || view.pending.contains_key(at)
}

/// Whatever piece of the sent bytes comes next, what has been received is part
/// of the sent bytes, each where it belongs.
pub proof fn law_received_bytes_are_the_sent_ones(
    before: ReceiveView,
    offset: u64,
    data: Seq<u8>,
    after: ReceiveView,
    sent: Seq<u8>,
)
    requires
        agrees(before, sent),
        is_part(offset, data, sent),
        delivered(before, merged(before, offset, data), after),
    ensures
        agrees(after, sent),
        forall|at: int| #[trigger]
            has_come(after, at) <==> has_come(before, at) || offset <= at < offset + data.len(),
{
    let bytes = merged(before, offset, data);
    assert forall|at: int| #[trigger] bytes.contains_key(at) implies before.next_offset <= at
        < sent.len() && bytes[at] == sent[at] by {}
    if after.next_offset > before.next_offset {
        assert(bytes.contains_key(after.next_offset - 1));
    }
    assert(after.ready =~= sent.subrange(
        after.next_offset - after.ready.len(),
        after.next_offset as int,
    )) by {
        assert forall|i: int| 0 <= i < after.ready.len() implies after.ready[i] == sent[(
        after.next_offset - after.ready.len()) + i] by {
            if i >= before.ready.len() {
                let at = before.next_offset + (i - before.ready.len());
                assert(bytes.contains_key(at));
            }
        }
    }
    assert forall|at: int| #[trigger] has_come(after, at) <==> has_come(before, at) || offset <= at
        < offset + data.len() by {
        if before.next_offset <= at {
            assert(bytes.contains_key(at) <==> has_come(before, at) || offset <= at < offset
                + data.len());
        }
    }
}

/// Reading gives the next bytes that were sent, in order.
pub proof fn law_read_gives_the_next_bytes(stream: StreamView, max_len: usize, sent: Seq<u8>)
    requires
        agrees(stream.recv, sent),
    ensures
        ({
            let amount = lesser(max_len as int, stream.recv.ready.len() as int);
            let start = stream.recv.next_offset - stream.recv.ready.len();
            &&& stream.recv.ready.subrange(0, amount) == sent.subrange(start, start + amount)
            &&& agrees(after_read(stream, max_len).recv, sent)
            &&& after_read(stream, max_len).recv.next_offset
                - after_read(stream, max_len).recv.ready.len() == start + amount
        }),
{
    let amount = lesser(max_len as int, stream.recv.ready.len() as int);
    let start = stream.recv.next_offset - stream.recv.ready.len();
    let after = after_read(stream, max_len).recv;
    assert(stream.recv.ready.subrange(0, amount) =~= sent.subrange(start, start + amount));
    assert(after.ready =~= sent.subrange(start + amount, after.next_offset as int));
}

/// Bytes that have all come before change nothing.
pub proof fn law_repeated_bytes_change_nothing(
    before: ReceiveView,
    offset: u64,
    data: Seq<u8>,
    after: ReceiveView,
)
    requires
        forall|at: int| #[trigger] before.pending.contains_key(at) ==> before.next_offset < at,
        forall|at: int| offset <= at < offset + data.len() ==> #[trigger] has_come(before, at),
        delivered(before, merged(before, offset, data), after),
    ensures
        after == (ReceiveView { final_offset: after.final_offset, ..before }),
{
    let bytes = merged(before, offset, data);
    assert(bytes =~= before.pending) by {
        assert forall|at: int| #[trigger] bytes.contains_key(at) implies before.pending.contains_key(
            at,
        ) by {
            if !before.pending.contains_key(at) {
                assert(has_come(before, at));
            }
        }
    }
    if after.next_offset > before.next_offset {
        assert(bytes.contains_key(before.next_offset as int));
    }
    assert(after.pending =~= before.pending);
    assert(after.ready =~= before.ready);
}

/// Bytes that come are kept once: what is buffered grows by the bytes that had
/// not come before.
pub proof fn law_only_new_bytes_are_buffered(
    before: ReceiveView,
    offset: u64,
    data: Seq<u8>,
    after: ReceiveView,
)
    requires
        before.pending.dom().finite(),
        forall|at: int| #[trigger] before.pending.contains_key(at) ==> before.next_offset < at,
        delivered(before, merged(before, offset, data), after),
    ensures
        after.buffered() == before.buffered() + missing_count(
            before.pending,
            greater(offset as int, before.next_offset as int),
            offset + data.len(),
        ),
{
    let bytes = merged(before, offset, data);
    let from = greater(offset as int, before.next_offset as int);
    let to = offset + data.len();
    let fresh = missing_offsets(before.pending, from, to);
    let moved = set_int_range(before.next_offset as int, after.next_offset as int);
    lemma_missing_offsets(before.pending, from, to);
    lemma_int_range(before.next_offset as int, after.next_offset as int);
    assert(bytes.dom() =~= before.pending.dom() + fresh);
    lemma_set_disjoint_lens(before.pending.dom(), fresh);
    assert(after.pending.dom() =~= bytes.dom().difference(moved)) by {
        assert forall|at: int| #[trigger] bytes.contains_key(at) && !moved.contains(at) implies at
            >= after.next_offset by {
            assert(at >= before.next_offset);
        }
    }
    assert(bytes.dom() =~= after.pending.dom() + moved);
    lemma_set_disjoint_lens(after.pending.dom(), moved);
}

/// Offsets from `from` up to `to` at which there is no byte.
spec fn missing_offsets(bytes: Map<int, u8>, from: int, to: int) -> Set<int> {
    Set::new(|at: int| from <= at < to && !bytes.contains_key(at))
}

proof fn lemma_missing_offsets(bytes: Map<int, u8>, from: int, to: int)
    ensures
        missing_offsets(bytes, from, to).finite(),
        missing_offsets(bytes, from, to).len() == missing_count(bytes, from, to),
    decreases to - from,
{
    if from >= to {
        assert(missing_offsets(bytes, from, to) =~= Set::empty());
    } else {
        lemma_missing_offsets(bytes, from, to - 1);
        let before = missing_offsets(bytes, from, to - 1);
        if bytes.contains_key(to - 1) {
            assert(missing_offsets(bytes, from, to) =~= before);
        } else {
            assert(missing_offsets(bytes, from, to) =~= before.insert(to - 1));
        }
    }
}

/// Pieces come one after the other: `views` are the states before, between and
/// after them.
pub open spec fn pieces_come(
    views: Seq<ReceiveView>,
    offsets: Seq<u64>,
    data: Seq<Seq<u8>>,
) -> bool {
    &&& offsets.len() == data.len()
    &&& views.len() == data.len() + 1
    &&& forall|i: int|
        0 <= i < data.len() ==> delivered(
            views[i],
            merged(views[i], #[trigger] offsets[i], data[i]),
            views[i + 1],
        )
}

/// Pieces that come in any order, and more than once, give the sent bytes whole
/// and in order once each byte has come.
pub proof fn law_pieces_in_any_order_give_the_whole(
    views: Seq<ReceiveView>,
    offsets: Seq<u64>,
    data: Seq<Seq<u8>>,
    sent: Seq<u8>,
)
    requires
        pieces_come(views, offsets, data),
        views[0].next_offset == 0,
        views[0].ready == Seq::<u8>::empty(),
        views[0].pending == Map::<int, u8>::empty(),
        forall|i: int| 0 <= i < data.len() ==> is_part(#[trigger] offsets[i], data[i], sent),
        forall|at: int| 0 <= at < sent.len() ==> #[trigger] some_piece_has(offsets, data, at),
    ensures
        views.last().ready == sent,
        views.last().next_offset == sent.len(),
        views.last().pending == Map::<int, u8>::empty(),
{
    let count = data.len() as int;
    assert(views[0].ready =~= sent.subrange(0, 0));
    lemma_pieces_add_up(views, offsets, data, sent, count);
    let last = views[count];
    if last.next_offset < sent.len() {
        let at = last.next_offset as int;
        assert(some_piece_has(offsets, data, at));
        let i = choose|i: int|
            0 <= i < offsets.len() && #[trigger] offsets[i] <= at < offsets[i] + data[i].len();
        assert(has_come(last, at));
        assert(last.pending.contains_key(at));
    }
    assert(last.ready =~= sent);
    assert(last.pending =~= Map::<int, u8>::empty()) by {
        assert forall|at: int| !#[trigger] last.pending.contains_key(at) by {}
    }
}

/// Whether one of the pieces has the byte at this offset.
pub open spec fn some_piece_has(offsets: Seq<u64>, data: Seq<Seq<u8>>, at: int) -> bool {
    exists|i: int|
        0 <= i < offsets.len() && #[trigger] offsets[i] <= at < offsets[i] + data[i].len()
}

proof fn lemma_pieces_add_up(
    views: Seq<ReceiveView>,
    offsets: Seq<u64>,
    data: Seq<Seq<u8>>,
    sent: Seq<u8>,
    count: int,
)
    requires
        pieces_come(views, offsets, data),
        0 <= count <= data.len(),
        agrees(views[0], sent),
        views[0].next_offset == 0,
        views[0].ready.len() == 0,
        forall|i: int| 0 <= i < data.len() ==> is_part(#[trigger] offsets[i], data[i], sent),
    ensures
        agrees(views[count], sent),
        views[count].ready.len() == views[count].next_offset,
        forall|i: int, at: int|
            0 <= i < count && #[trigger] offsets[i] <= at < offsets[i] + data[i].len()
                ==> #[trigger] has_come(views[count], at),
    decreases count,
{
    if count > 0 {
        lemma_pieces_add_up(views, offsets, data, sent, count - 1);
        assert(is_part(offsets[count - 1], data[count - 1], sent));
        law_received_bytes_are_the_sent_ones(
            views[count - 1],
            offsets[count - 1],
            data[count - 1],
            views[count],
            sent,
        );
        assert forall|i: int, at: int|
            0 <= i < count && #[trigger] offsets[i] <= at < offsets[i]
                + data[i].len() implies #[trigger] has_come(views[count], at) by {
            if i < count - 1 {
                assert(has_come(views[count - 1], at));
            }
        }
    }
}

/// The pieces into which written bytes are cut give the written bytes back to
/// the reader, whatever the order in which they come and however often.
pub proof fn law_written_bytes_are_read(
    written: Seq<u8>,
    size: nat,
    views: Seq<ReceiveView>,
    order: Seq<int>,
)
    requires
        size > 0,
        written.len() <= u64::MAX,
        views.len() == order.len() + 1,
        views[0].next_offset == 0,
        views[0].ready == Seq::<u8>::empty(),
        views[0].pending == Map::<int, u8>::empty(),
        forall|i: int|
            0 <= i < order.len() ==> 0 <= #[trigger] order[i] < pieces(written, 0, size).len(),
        forall|piece: int|
            0 <= piece < pieces(written, 0, size).len() ==> #[trigger] order.contains(piece),
        forall|i: int|
            0 <= i < order.len() ==> delivered(
                views[i],
                merged(
                    views[i],
                    pieces(written, 0, size)[#[trigger] order[i]].offset,
                    pieces(written, 0, size)[order[i]].data,
                ),
                views[i + 1],
            ),
    ensures
        views.last().ready == written,
        views.last().pending == Map::<int, u8>::empty(),
{
    let all = pieces(written, 0, size);
    let offsets = Seq::new(order.len(), |i: int| all[order[i]].offset);
    let data = Seq::new(order.len(), |i: int| all[order[i]].data);
    law_pieces_hold_the_data(written, 0, size);
    assert forall|i: int| 0 <= i < data.len() implies is_part(
        #[trigger] offsets[i],
        data[i],
        written,
    ) by {
        let piece = pieces(written, 0, size)[order[i]];
        assert(piece.data == written.subrange(
            piece.offset as int,
            piece.offset + piece.data.len(),
        ));
    }
    assert forall|at: int| 0 <= at < written.len() implies #[trigger] some_piece_has(
        offsets,
        data,
        at,
    ) by {
        assert(some_piece_holds(all, at));
        let piece = choose|piece: int|
            0 <= piece < all.len() && #[trigger] all[piece].offset <= at < all[piece].offset
                + all[piece].data.len();
        assert(order.contains(piece));
        let i = order.index_of(piece);
        assert(offsets[i] <= at < offsets[i] + data[i].len());
    }
    assert forall|i: int| 0 <= i < data.len() implies delivered(
        views[i],
        merged(views[i], #[trigger] offsets[i], data[i]),
        views[i + 1],
    ) by {
        assert(offsets[i] == all[order[i]].offset);
    }
    law_pieces_in_any_order_give_the_whole(views, offsets, data, written);
}

/// An acknowledgement covers only packets that came.
pub proof fn law_acknowledges_only_what_came(
    held: Seq<AckRange>,
    wider: Seq<AckRange>,
    number: u64,
    limit: nat,
    other: u64,
)
    requires
        ranges_with(held, wider, number),
        ranges_hold(first_ranges(wider, limit), other),
    ensures
        other == number || ranges_hold(held, other),
{
    let kept = first_ranges(wider, limit);
    let i = choose|i: int| 0 <= i < kept.len() && (#[trigger] kept[i]).holds(other);
    assert(wider[i].holds(other));
    assert(ranges_hold(wider, other));
}

/// The timeout that a measurement gives stays within its bounds.
pub proof fn law_timeout_stays_within_its_bounds(
    before: RttEstimator,
    after: RttEstimator,
    sample: nat,
    ack_delay: nat,
)
    requires
        before.well_formed(),
        measured(before, after, sample, ack_delay),
    ensures
        before.min_rto@ <= after.rto@ <= before.max_rto@,
{
}

/// Whether the timeout is within its bounds, and the first one was.
pub open spec fn within_bounds(rtt: RttEstimator) -> bool {
    &&& rtt.min_rto@ <= rtt.rto@ <= rtt.max_rto@
    &&& rtt.min_rto@ <= rtt.initial_rto@ <= rtt.max_rto@
}

/// The timeout stays within its bounds whatever happens: a measurement, a loss, or
/// the end of a loss.
pub proof fn law_timeout_keeps_its_bounds(
    before: RttEstimator,
    after: RttEstimator,
    sample: nat,
    ack_delay: nat,
)
    requires
        within_bounds(before),
        measured(before, after, sample, ack_delay) || backed_off(before, after) || backoff_undone(
            before,
            after,
        ),
    ensures
        within_bounds(after),
{
}

/// The smoothed time lies between what it was and what was measured.
pub proof fn law_smoothed_time_lies_between(
    before: RttEstimator,
    after: RttEstimator,
    sample: nat,
    ack_delay: nat,
)
    requires
        measured(before, after, sample, ack_delay),
        before.srtt is Some,
    ensures
        ({
            let was = before.srtt->0@ as int;
            let measure = greater(sample - ack_delay, 0);
            after.srtt matches Some(srtt) && lesser(was, measure) <= srtt@ <= greater(was, measure)
        }),
{
}

/// A packet that has come before changes nothing of what was received: no byte,
/// no stream, no limit, no setting.
pub proof fn law_repeated_packet_is_not_received_again<W: Wire>(
    wire: &W,
    before: ConnectionView,
    packet: PacketView,
    after: ConnectionView,
    result: Result<(), CoreError>,
)
    requires
        repeated(before, packet),
        datagram_done(wire, before, packet, after, result),
    ensures
        receives_same(before, after),
{
    let (noted, first) = choose|noted: ConnectionView, first: Result<(), CoreError>| #[trigger]
        packet_noted(before, packet, noted, first) && if first is Ok {
            exists|acked: ConnectionView, second: Result<(), CoreError>| #[trigger]
                acks_done(wire, noted, packet.frames, packet.frames.len() as int, acked, second)
                    && if second is Ok {
                    exists|taken: ConnectionView, third: Result<(), CoreError>| #[trigger]
                        frames_taken(wire, before, packet, acked, taken, third) && if third is Ok {
                            answer_given(wire, taken, packet.frames, after, result)
                        } else {
                            after == taken && result == third
                        }
                } else {
                    after == acked && result == second
                }
        } else {
            after == noted && result == first
        };
    if first is Ok {
        let (acked, second) = choose|acked: ConnectionView, second: Result<(), CoreError>| #[trigger]
            acks_done(wire, noted, packet.frames, packet.frames.len() as int, acked, second)
                && if second is Ok {
                exists|taken: ConnectionView, third: Result<(), CoreError>| #[trigger]
                    frames_taken(wire, before, packet, acked, taken, third) && if third is Ok {
                        answer_given(wire, taken, packet.frames, after, result)
                    } else {
                        after == taken && result == third
                    }
            } else {
                after == acked && result == second
            };
        lemma_acks_receive_same(
            wire,
            noted,
            packet.frames,
            packet.frames.len() as int,
            acked,
            second,
        );
    }
}

/// What was received is the same.
pub open spec fn receives_same(before: ConnectionView, after: ConnectionView) -> bool {
    &&& only_sending_changed(before.streams, after.streams)
    &&& after.next_stream == before.next_stream
    &&& after.receive == before.receive
    &&& after.config == before.config
    &&& after.handshake == before.handshake
    &&& after.crypto_active == before.crypto_active
}

proof fn lemma_acks_receive_same<W: Wire>(
    wire: &W,
    before: ConnectionView,
    frames: Seq<FrameView>,
    count: int,
    after: ConnectionView,
    result: Result<(), CoreError>,
)
    requires
        acks_done(wire, before, frames, count, after, result),
    ensures
        receives_same(before, after),
    decreases count,
{
    if count > 0 {
        let (middle, so_far) = choose|middle: ConnectionView, so_far: Result<(), CoreError>| #[trigger]
            ack_follows(wire, middle, so_far, frames[count - 1], after, result) && acks_done(
                wire,
                before,
                frames,
                count - 1,
                middle,
                so_far,
            );
        lemma_acks_receive_same(wire, before, frames, count - 1, middle, so_far);
        match frames[count - 1] {
            FrameView::Ack(ack) => {
                if so_far is Ok {
                    lemma_ack_receives_same(wire, middle, ack, after, result);
                }
            },
            _ => {},
        }
    }
}

proof fn lemma_ack_receives_same<W: Wire>(
    wire: &W,
    before: ConnectionView,
    ack: AckView,
    after: ConnectionView,
    result: Result<(), CoreError>,
)
    requires
        ack_taken(wire, before, ack, after, result),
    ensures
        receives_same(before, after),
{
    let checked = choose|checked: Result<(), ProtocolError>| #[trigger]
        ack_done(before, ack, checked, after, result);
    if checked is Ok && ack.largest < before.transport.next_packet_number {
        let numbers = choose|numbers: Seq<u64>| #[trigger]
            rising_numbers(numbers, before.transport.sent)
                && ack_applied(
                before,
                ack,
                numbers,
                after,
                result,
            );
        lemma_runs_send(
            AckRun {
                sent: before.transport.sent,
                timers: before.timers.timers,
                slots: before.timers.slots,
                congestion: before.transport.congestion,
                pending: before.transport.pending,
                streams: before.streams,
                failed: None,
            },
            numbers,
            ack.ranges,
            before.config.fast_loss_threshold,
            before.config.max_retransmissions,
            numbers.len() as int,
            numbers.len() as int,
        );
    }
}

} // verus!
