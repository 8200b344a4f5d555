//! What the requests to a connection and its timers come to.

use vstd::arithmetic::div_mod::{lemma_fundamental_div_mod, lemma_mod_bound};
use vstd::prelude::*;

use crate::duration::Duration;
use crate::reliable_core::congestion::greater;
use crate::reliable_core::connection::{Connection, ReadResult};
use crate::reliable_core::error::CoreError;
use crate::reliable_core::event::{ConnectionState, OutputView};
use crate::reliable_core::recovery::SentView;
use crate::reliable_core::send::written;
use crate::reliable_core::sending_laws::{law_sending_keeps_the_limits_of_streams, same_limits};
use crate::reliable_core::stream::{StreamInfo, StreamState};
use crate::reliable_core::streams::{after_read, opened, StreamView};
use crate::reliable_core::timer::TimerEvent;
use crate::reliable_core::timers::TimersView;
use crate::reliable_core::transition::{
    open_done, queued, sending, sent_on, stream_read, write_refused, ConnectionView,
};
use crate::reliable_core::transport::sending_error;
use crate::time_wheel::wheel::{delay_ticks, units_up};
use crate::time_wheel::TimerId;
use crate::wire::{FrameView, MaxStreamData, StreamId, StreamOpen, Wire};

verus! {

/// Whether a timer that was set rings for this event once the delay is over, and
/// less than a tick later.
pub open spec fn rings_for(
    before: TimersView,
    after: TimersView,
    id: TimerId,
    event: TimerEvent,
    delay: Duration,
) -> bool {
    let timer = after.timers[id.value()];
    let wait = timer.deadline_tick * before.tick_nanos - before.tick * before.tick_nanos
        - before.remainder;
    &&& after.timers.contains_key(id.value())
    &&& !before.timers.contains_key(id.value())
    &&& timer.item == event
    &&& before.remainder < before.tick_nanos && delay@ > 0 ==> delay@ <= wait < delay@
        + before.tick_nanos
}

/// The ticks of a delay last at least as long as it does, and less than one longer.
proof fn lemma_delay_lasts(delay: nat, remainder: nat, tick_nanos: nat)
    requires
        remainder < tick_nanos,
        delay > 0,
    ensures
        delay + remainder <= delay_ticks(delay, remainder, tick_nanos) * tick_nanos < delay
            + remainder + tick_nanos,
{
    let amount = delay + remainder;
    let whole = amount / tick_nanos;
    lemma_fundamental_div_mod(amount as int, tick_nanos as int);
    lemma_mod_bound(amount as int, tick_nanos as int);
    let due = units_up(amount, tick_nanos);
    assert(due == whole ==> due * tick_nanos == tick_nanos * whole) by (nonlinear_arith);
    assert(due == whole + 1 ==> due * tick_nanos == tick_nanos * whole + tick_nanos)
        by (nonlinear_arith);
}

/// A timer that is added for a delay rings for it.
pub proof fn lemma_rings(
    before: TimersView,
    after: TimersView,
    id: TimerId,
    event: TimerEvent,
    delay: Duration,
)
    requires
        !before.timers.contains_key(id.value()),
        after.timers.contains_key(id.value()),
        after.timers[id.value()].item == event,
        after.timers[id.value()].deadline_tick == before.tick + delay_ticks(
            delay@,
            before.remainder,
            before.tick_nanos,
        ),
    ensures
        rings_for(before, after, id, event, delay),
{
    if before.remainder < before.tick_nanos && delay@ > 0 {
        lemma_delay_lasts(delay@, before.remainder, before.tick_nanos);
        let ticks = delay_ticks(delay@, before.remainder, before.tick_nanos);
        let tick = before.tick as nat;
        let nanos = before.tick_nanos;
        assert((tick + ticks) * nanos == tick * nanos + ticks * nanos) by (nonlinear_arith);
    }
}

/// A stream that is opened gets the next number of this side, is open, and is told
/// to the other side; the one after it gets a number two higher.
pub proof fn law_opened_streams_are_numbered_in_order<W: Wire>(
    wire: &W,
    first: &mut Connection,
    first_id: StreamId,
    second: &mut Connection,
    second_id: StreamId,
)
    requires
        old(first).well_formed(),
        call_ensures(
            Connection::open_stream::<W>,
            (first, wire),
            Ok::<StreamId, CoreError>(first_id),
        ),
        *old(second) == *final(first),
        call_ensures(
            Connection::open_stream::<W>,
            (second, wire),
            Ok::<StreamId, CoreError>(second_id),
        ),
    ensures
        old(first)@.state == ConnectionState::Established,
        !old(first)@.streams.contains_key(first_id.value),
        final(first)@.streams.contains_key(first_id.value),
        ({
            let stream = final(first)@.streams[first_id.value];
            &&& stream.id == first_id
            &&& stream.bidirectional
            &&& stream.state == StreamState::Open
            &&& stream.recv.next_offset == 0
            &&& stream.recv.ready.len() == 0
            &&& stream.recv.max_offset == old(first)@.config.initial_stream_window
            &&& stream.send.next_offset == 0
            &&& stream.send.max_offset == old(first)@.handshake.peer_initial_stream_window
        }),
        forall|other: u64| #[trigger]
            old(first)@.streams.contains_key(other) ==> final(first)@.streams.contains_key(other)
                && final(first)@.streams[other].recv == old(first)@.streams[other].recv,
        second_id.value == first_id.value + 2,
{
    let before = old(first)@.streams;
    let after = final(first)@.streams;
    lemma_opened(wire, old(first)@, final(first)@, first_id);
    assert forall|other: u64| #[trigger] before.contains_key(other) implies after.contains_key(
        other,
    ) && after[other].recv == before[other].recv by {
        assert(before.insert(first_id.value, after[first_id.value]).dom().contains(other));
        assert(after.contains_key(other));
        assert(other != first_id.value);
    }
}

proof fn lemma_opened<W: Wire>(
    wire: &W,
    before: ConnectionView,
    after: ConnectionView,
    id: StreamId,
)
    requires
        open_done(wire, before, after, Ok(id)),
    ensures
        after.next_stream == id.value + 2,
        same_limits(before.streams.insert(id.value, after.streams[id.value]), after.streams),
        after.streams[id.value].id == id,
        after.streams[id.value].bidirectional,
        after.streams[id.value].state == StreamState::Open,
        after.streams[id.value].recv.next_offset == 0,
        after.streams[id.value].recv.ready.len() == 0,
        after.streams[id.value].recv.max_offset == before.config.initial_stream_window,
        after.streams[id.value].send.next_offset == 0,
        after.streams[id.value].send.max_offset == before.handshake.peer_initial_stream_window,
{
    let window = before.handshake.peer_initial_stream_window;
    let told = FrameView::StreamOpen(
        StreamOpen { stream_id: id, initial_receive_window: window, bidirectional: true },
    );
    let stream = choose|stream: StreamView| #[trigger]
        opened(stream, id, true, window, before.config.initial_stream_window) && sent_on(
            wire,
            queued(
                ConnectionView {
                    streams: before.streams.insert(before.next_stream, stream),
                    next_stream: (before.next_stream + 2) as u64,
                    ..before
                },
                FrameView::StreamOpen(
                    StreamOpen {
                        stream_id: StreamId { value: before.next_stream },
                        initial_receive_window: window,
                        bidirectional: true,
                    },
                ),
            ),
            after,
            sending(Ok::<StreamId, CoreError>(id)),
        );
    let middle = queued(
        ConnectionView {
            streams: before.streams.insert(id.value, stream),
            next_stream: (id.value + 2) as u64,
            ..before
        },
        told,
    );
    assert(sent_on(wire, middle, after, sending(Ok::<StreamId, CoreError>(id))));
    law_sending_keeps_the_limits_of_streams(
        wire,
        middle,
        after,
        sending(Ok::<StreamId, CoreError>(id)),
    );
    assert(middle.streams.dom().contains(id.value));
    assert(after.streams.contains_key(id.value));
    assert(before.streams.insert(id.value, after.streams[id.value]).dom() =~= after.streams.dom());
}

/// A stream can be opened on an established connection as long as there are fewer
/// than both sides allow and numbers are left; what may fail then is sending.
pub proof fn law_stream_is_opened_where_there_is_room<W: Wire>(
    wire: &W,
    connection: &mut Connection,
    result: Result<StreamId, CoreError>,
)
    requires
        old(connection).well_formed(),
        call_ensures(Connection::open_stream::<W>, (connection, wire), result),
    ensures
        ({
            let before = old(connection)@;
            let count = before.streams.dom().len();
            let allowed = before.state == ConnectionState::Established && count
                < before.config.max_streams && count < before.handshake.peer_max_streams
                && before.next_stream + 2 <= u64::MAX;
            &&& !allowed ==> result is Err && final(connection)@ == before
            &&& before.state == ConnectionState::Established && !(count < before.config.max_streams
                && count < before.handshake.peer_max_streams) ==> result == Err::<
                StreamId,
                CoreError,
            >(CoreError::StreamLimit)
            &&& allowed && result is Err ==> sending_error(result->Err_0)
        }),
{
}

/// Bytes are accepted whole or not at all: if a write succeeds, all of them were
/// taken, and the stream has as many more to send; else nothing has changed or
/// sending failed. They are taken exactly if the stream is open for writing, has
/// room, and stays within the limit of the other side.
pub proof fn law_write_takes_all_or_nothing<W: Wire>(
    wire: &W,
    connection: &mut Connection,
    stream_id: StreamId,
    data: &[u8],
    fin: bool,
    result: Result<usize, CoreError>,
)
    requires
        old(connection).well_formed(),
        call_ensures(Connection::write_stream::<W>, (connection, stream_id, data, fin, wire), result),
    ensures
        ({
            let before = old(connection)@;
            let after = final(connection)@;
            let id = stream_id.value;
            let stream = before.streams[id];
            let open = before.state == ConnectionState::Established && before.streams.contains_key(
                id,
            ) && stream.state == StreamState::Open && !stream.send.fin_requested
                && !stream.send.fin_sent;
            let room = data@.len() == 0 || stream.send.queued_bytes + data@.len()
                <= before.config.max_send_buffer;
            let allowed = stream.send.next_offset + data@.len() <= stream.send.max_offset;
            &&& !(open && room && allowed) ==> result is Err && after == before
            &&& open && room && allowed ==> {
                &&& after.streams[id].send.next_offset == stream.send.next_offset + data@.len()
                &&& after.streams[id].send.fin_requested == fin
                &&& result is Ok ==> result->Ok_0 == data@.len()
                &&& result is Err ==> sending_error(result->Err_0)
            }
            &&& open && !room ==> result == Err::<usize, CoreError>(CoreError::SendBufferFull)
            &&& before.state == ConnectionState::Established && !before.streams.contains_key(id)
                ==> result == Err::<usize, CoreError>((CoreError::UnknownStream { stream_id }))
            &&& open && room && !allowed && stream.send.next_offset + data@.len() <= u64::MAX
                ==> result is Err && result->Err_0 is FlowControlViolation
        }),
{
    let before = old(connection)@;
    let after = final(connection)@;
    let id = stream_id.value;
    if write_refused(before, stream_id, data@.len()) is None {
        let chunk = greater(before.config.max_datagram_size - 100, 1) as usize;
        let stream = before.streams[id];
        let middle = ConnectionView {
            streams: before.streams.insert(
                id,
                StreamView { send: written(stream.send, data@, fin, chunk), ..stream },
            ),
            ..before
        };
        law_sending_keeps_the_limits_of_streams(wire, middle, after, sending(result));
        assert(middle.streams.dom().contains(id));
        assert(after.streams.contains_key(id));
    }
}

/// A read gives the bytes that are next and no more than asked for; what it does
/// not give is there for the next one. It tells of the end exactly if nothing is
/// left and all up to the end has come.
pub proof fn law_reads_follow_each_other<W: Wire>(
    wire: &W,
    first: &mut Connection,
    stream_id: StreamId,
    max_len: usize,
    read: ReadResult,
    second: &mut Connection,
    more_len: usize,
    more: ReadResult,
)
    requires
        old(first).well_formed(),
        call_ensures(
            Connection::read_stream::<W>,
            (first, stream_id, max_len, wire),
            Ok::<ReadResult, CoreError>(read),
        ),
        *old(second) == *final(first),
        call_ensures(
            Connection::read_stream::<W>,
            (second, stream_id, more_len, wire),
            Ok::<ReadResult, CoreError>(more),
        ),
    ensures
        ({
            let before = old(first)@.streams[stream_id.value].recv;
            let between = final(first)@.streams[stream_id.value].recv;
            let after = final(second)@.streams[stream_id.value].recv;
            &&& read.data@.len() <= max_len
            &&& before.ready == read.data@ + between.ready
            &&& read.data@.len() == max_len || between.ready.len() == 0
            &&& before.ready == read.data@ + more.data@ + after.ready
            &&& read.eof <==> between.ready.len() == 0 && before.final_offset == Some(
                before.next_offset,
            )
            &&& between.next_offset == before.next_offset
            &&& between.final_offset == before.final_offset
            &&& between.pending == before.pending
        }),
{
    let before = old(first)@;
    let id = stream_id.value;
    let between = final(first)@;
    let after = final(second)@;
    let one = choose|taken: ConnectionView| #[trigger]
        stream_read(
            before,
            stream_id,
            after_read(before.streams[id], max_len),
            read.data@.len(),
            taken,
        ) && sent_on(wire, taken, between, Ok(()));
    let two = choose|taken: ConnectionView| #[trigger]
        stream_read(
            between,
            stream_id,
            after_read(between.streams[id], more_len),
            more.data@.len(),
            taken,
        ) && sent_on(wire, taken, after, Ok(()));
    law_sending_keeps_the_limits_of_streams(wire, one, between, Ok(()));
    law_sending_keeps_the_limits_of_streams(wire, two, after, Ok(()));
    assert(one.streams.dom().contains(id));
    assert(two.streams.dom().contains(id));
    assert(between.streams.contains_key(id));
    assert(after.streams.contains_key(id));
    let ready = before.streams[id].recv.ready;
    assert(ready =~= read.data@ + between.streams[id].recv.ready);
    assert(between.streams[id].recv.ready =~= more.data@ + after.streams[id].recv.ready);
    assert(ready =~= read.data@ + more.data@ + after.streams[id].recv.ready);
}

/// The end of a stream is announced when a read has taken the last of its bytes, and
/// only then.
pub proof fn law_end_of_a_stream_is_announced(
    before: ConnectionView,
    stream_id: StreamId,
    max_len: usize,
    taken: ConnectionView,
    given: nat,
)
    requires
        before.streams.contains_key(stream_id.value),
        stream_read(
            before,
            stream_id,
            after_read(before.streams[stream_id.value], max_len),
            given,
            taken,
        ),
    ensures
        ({
            let was = before.streams[stream_id.value].recv;
            &&& was.ready.len() <= max_len && was.final_offset == Some(was.next_offset)
                ==> taken.output == before.output.push(OutputView::StreamFinished(stream_id))
            &&& !(was.ready.len() <= max_len && was.final_offset == Some(was.next_offset))
                ==> taken.output == before.output
        }),
{
}

/// A read of bytes makes room for as many, in the stream and in the connection, and
/// the other side is told of a limit that was raised.
pub proof fn law_read_raises_the_limits<W: Wire>(
    wire: &W,
    before: ConnectionView,
    stream_id: StreamId,
    max_len: usize,
    taken: ConnectionView,
    given: nat,
)
    requires
        before.streams.contains_key(stream_id.value),
        stream_read(
            before,
            stream_id,
            after_read(before.streams[stream_id.value], max_len),
            given,
            taken,
        ),
        given == before.streams[stream_id.value].recv.ready.len() - after_read(
            before.streams[stream_id.value],
            max_len,
        ).recv.ready.len(),
        before.receive.consumed + given + before.receive.window_size <= u64::MAX,
        before.streams[stream_id.value].recv_flow.consumed + given
            + before.streams[stream_id.value].recv_flow.window_size <= u64::MAX,
        before.receive.max_offset == before.receive.advertised_offset,
        before.streams[stream_id.value].recv_flow.advertised_offset
            == before.streams[stream_id.value].recv.max_offset,
    ensures
        ({
            let was = before.streams[stream_id.value];
            let now = taken.streams[stream_id.value];
            &&& now.recv_flow.consumed == was.recv_flow.consumed + given
            &&& now.recv.max_offset >= was.recv_flow.consumed + given + was.recv_flow.window_size
            &&& now.recv.max_offset >= was.recv.max_offset
            &&& now.recv.max_offset > was.recv.max_offset ==> exists|i: int|
                0 <= i < taken.transport.pending.len() && (
                #[trigger] taken.transport.pending[i]).frame == FrameView::MaxStreamData(
                    MaxStreamData { stream_id, max_offset: now.recv.max_offset },
                )
            &&& given > 0 ==> taken.receive.consumed == before.receive.consumed + given
                && taken.receive.max_offset >= taken.receive.consumed + taken.receive.window_size
            &&& taken.receive.max_offset >= before.receive.max_offset
        }),
{
    let now = taken.streams[stream_id.value];
    let was = before.streams[stream_id.value];
    if now.recv.max_offset > was.recv.max_offset {
        let last = taken.transport.pending.len() - 1;
        assert(taken.transport.pending[last].frame == FrameView::MaxStreamData(
            MaxStreamData { stream_id, max_offset: now.recv.max_offset },
        ));
    }
}

/// What is told of a stream is what the stream is.
pub proof fn law_stream_is_told_as_it_is(
    connection: &Connection,
    stream_id: StreamId,
    result: Result<StreamInfo, CoreError>,
)
    requires
        connection.well_formed(),
        call_ensures(Connection::stream_info, (connection, stream_id), result),
    ensures
        result is Ok <==> connection@.streams.contains_key(stream_id.value),
        result is Ok ==> {
            let stream = connection@.streams[stream_id.value];
            let info = result->Ok_0;
            &&& info.stream_id == stream.id
            &&& info.state == stream.state
            &&& info.bidirectional == stream.bidirectional
            &&& info.send_offset == stream.send.next_offset
            &&& info.receive_offset == stream.recv.next_offset
            &&& info.receive_window == stream.recv.max_offset
            &&& stream.recv.ready.len() + stream.recv.pending.dom().len() <= usize::MAX
                ==> info.buffered_bytes == stream.recv.ready.len() + stream.recv.pending.dom().len()
        },
{
}

/// All is acknowledged exactly if no frame waits, no packet is unacknowledged and no
/// stream has a piece to send.
pub proof fn law_flushed_means_nothing_is_owed(connection: &Connection, done: bool)
    requires
        connection.well_formed(),
        call_ensures(Connection::is_reliably_flushed, (connection,), done),
    ensures
        done <==> {
            &&& connection@.transport.pending.len() == 0
            &&& forall|number: u64| !(#[trigger] connection@.transport.sent.contains_key(number))
            &&& forall|id: u64| #[trigger]
                connection@.streams.contains_key(id) ==> connection@.streams[id].send.queue.len()
                    == 0
        },
{
    if forall|number: u64| !(#[trigger] connection@.transport.sent.contains_key(number)) {
        assert(connection@.transport.sent =~= Map::<u64, SentView>::empty());
    }
}

} // verus!
