//! How requests for a connection are answered.

use vstd::prelude::*;

use crate::duration::{Duration, MAX_NANOS};
use crate::reliable_core::congestion::lesser;
use crate::reliable_core::event::ConnectionState;
use crate::reliable_core::recovery::SentView;
use crate::reliable_core::stream::StreamState;
use crate::reliable_core::transition::{read_done, time_done, write_done, ConnectionView};
use crate::reliable_core::CoreError;
use crate::reliable_udp::action::{ActionView, ReplyView};
use crate::reliable_udp::event_loop::{due_at, EventLoop};
use crate::reliable_udp::runtime::{
    clocked, datagram_taken, read_replied, settled, time_left, write_replied, PendingRead, Runtime,
    RuntimeView, WriteView,
};
use crate::time_wheel::wheel::{is_earliest, nanos_until};
use crate::wire::{StreamId, Wire};

verus! {

/// A request to read bytes that are there is answered at once with the next of them,
/// as many as asked for. If there are none and there may be more, it waits.
pub proof fn law_read_request_gets_the_next_bytes<W: Wire>(
    runtime: &mut Runtime<W>,
    stream_id: StreamId,
    max_len: usize,
    request: u64,
)
    requires
        old(runtime).well_formed(),
        call_ensures(Runtime::<W>::read, (runtime, stream_id, max_len, request), ()),
        old(runtime)@.core.streams.contains_key(stream_id.value),
        !(old(runtime)@.core.streams[stream_id.value].state is Reset),
        max_len > 0,
    ensures
        ({
            let before = old(runtime)@;
            let after = final(runtime)@;
            let recv = before.core.streams[stream_id.value].recv;
            let last = after.actions.last();
            let answered = after.actions.len() == before.actions.len() + 1 && last is Reply
                && last->Reply_request == request && last->Reply_reply is Read;
            &&& recv.ready.len() > 0 ==> answered && (last->Reply_reply->Read_0 is Ok ==> {
                let read = last->Reply_reply->Read_0->Ok_0;
                &&& 0 < read.0.len() <= max_len
                &&& read.0.len() <= recv.ready.len()
                &&& read.0 == recv.ready.subrange(0, read.0.len() as int)
                &&& read.0.len() == max_len || read.0.len() == recv.ready.len()
                &&& read.1 <==> read.0.len() == recv.ready.len() && recv.final_offset == Some(
                    recv.next_offset,
                )
            })
            &&& recv.ready.len() == 0 && recv.final_offset == Some(recv.next_offset) ==> answered
                && (last->Reply_reply->Read_0 is Ok ==> ({
                    let read = last->Reply_reply->Read_0->Ok_0;
                    read.1
                }))
        }),
{
    let before = old(runtime)@;
    let after = final(runtime)@;
    let recv = before.core.streams[stream_id.value].recv;
    let outcome = choose|outcome: Result<(Seq<u8>, bool), CoreError>| #[trigger]
        read_done(&before.wire, before.core, stream_id, max_len, after.core, outcome) && after
            == read_replied(
            RuntimeView { core: after.core, ..before },
            stream_id,
            PendingRead { max_len, request },
            outcome,
        );
    if outcome is Ok {
        let read = outcome->Ok_0;
        assert(read.0 =~= recv.ready.subrange(0, read.0.len() as int));
    }
}

/// A request to read from a stream that is not there, or that was reset, is answered
/// with an error.
pub proof fn law_read_of_a_lost_stream_fails<W: Wire>(
    runtime: &mut Runtime<W>,
    stream_id: StreamId,
    max_len: usize,
    request: u64,
)
    requires
        old(runtime).well_formed(),
        call_ensures(Runtime::<W>::read, (runtime, stream_id, max_len, request), ()),
        !old(runtime)@.core.streams.contains_key(stream_id.value) || old(
            runtime,
        )@.core.streams[stream_id.value].state is Reset,
    ensures
        final(runtime)@.core == old(runtime)@.core,
        final(runtime)@.actions.len() == old(runtime)@.actions.len() + 1,
        final(runtime)@.actions.last() is Reply,
        final(runtime)@.actions.last()->Reply_request == request,
        final(runtime)@.actions.last()->Reply_reply is Read,
        final(runtime)@.actions.last()->Reply_reply->Read_0 is Err,
{
}

/// A request to write is answered that all was taken, or why it was not, unless there
/// is no room: then it waits with its bytes.
pub proof fn law_write_request_is_taken_or_waits<W: Wire>(
    runtime: &mut Runtime<W>,
    stream_id: StreamId,
    data: Vec<u8>,
    fin: bool,
    request: u64,
)
    requires
        old(runtime).well_formed(),
        call_ensures(Runtime::<W>::write, (runtime, stream_id, data, fin, request), ()),
        old(runtime)@.core.state == ConnectionState::Established,
        old(runtime)@.core.streams.contains_key(stream_id.value),
        old(runtime)@.core.streams[stream_id.value].state == StreamState::Open,
        !old(runtime)@.core.streams[stream_id.value].send.fin_requested,
        !old(runtime)@.core.streams[stream_id.value].send.fin_sent,
    ensures
        ({
            let before = old(runtime)@;
            let after = final(runtime)@;
            let send = before.core.streams[stream_id.value].send;
            let full = data@.len() > 0 && send.queued_bytes + data@.len()
                > before.core.config.max_send_buffer;
            let last = after.actions.last();
            &&& full ==> {
                &&& after.writes.contains_key(stream_id.value)
                &&& after.writes[stream_id.value].request == request
                &&& after.writes[stream_id.value].data == data@
                &&& after.writes[stream_id.value].fin == fin
                &&& after.core == before.core
                &&& if before.writes.contains_key(stream_id.value) {
                    after.actions == before.actions.push(
                        ActionView::Abandon {
                            request: before.writes[stream_id.value].request,
                        },
                    )
                } else {
                    after.actions == before.actions
                }
            }
            &&& !full ==> {
                &&& after.actions.len() == before.actions.len() + 1
                &&& last is Reply
                &&& last->Reply_request == request
                &&& last->Reply_reply is Write
                &&& last->Reply_reply->Write_0 is Ok ==> last->Reply_reply->Write_0->Ok_0
                    == data@.len()
                &&& send.next_offset + data@.len() > send.max_offset
                    ==> last->Reply_reply->Write_0 is Err
                &&& after.writes == before.writes
            }
        }),
{
    let before = old(runtime)@;
    let after = final(runtime)@;
    let outcome = choose|outcome: Result<usize, CoreError>| #[trigger]
        write_done(&before.wire, before.core, stream_id, data@, fin, after.core, outcome) && after
            == write_replied(
            RuntimeView { core: after.core, ..before },
            stream_id,
            WriteView { data: data@, fin, request },
            outcome,
        );
    assert(outcome is Ok || outcome is Err);
}

/// A request for a new stream is answered with its number, or with the reason why
/// there is none.
pub proof fn law_open_request_gets_the_stream<W: Wire>(runtime: &mut Runtime<W>, request: u64)
    requires
        old(runtime).well_formed(),
        call_ensures(Runtime::<W>::open_stream, (runtime, request), ()),
    ensures
        ({
            let before = old(runtime)@;
            let after = final(runtime)@;
            let last = after.actions.last();
            &&& after.actions.len() == before.actions.len() + 1
            &&& last is Reply
            &&& last->Reply_request == request
            &&& last->Reply_reply is Stream
            &&& last->Reply_reply->Stream_0 is Ok ==> {
                let id = last->Reply_reply->Stream_0->Ok_0;
                &&& !before.core.streams.contains_key(id.value)
                &&& after.core.streams.contains_key(id.value)
            }
            &&& before.core.state != ConnectionState::Established ==> last->Reply_reply->Stream_0
                is Err
        }),
{
}

/// A request to close is answered, and the connection is closing from then on.
pub proof fn law_close_request_closes<W: Wire>(
    runtime: &mut Runtime<W>,
    error_code: u32,
    reason: String,
    request: u64,
)
    requires
        old(runtime).well_formed(),
        call_ensures(Runtime::<W>::close, (runtime, error_code, reason, request), ()),
    ensures
        ({
            let before = old(runtime)@;
            let after = final(runtime)@;
            let last = after.actions.last();
            &&& after.actions.len() == before.actions.len() + 1
            &&& last is Reply
            &&& last->Reply_request == request
            &&& last->Reply_reply is Close
            &&& before.core.state != ConnectionState::Closed ==> after.core.state
                == ConnectionState::Closing && after.core.close_error == Some(error_code)
            &&& before.core.state == ConnectionState::Closed ==> after.core == before.core
        }),
{
}

/// A datagram that the connection refuses ends it, unless it cannot be read or is of
/// another connection.
pub proof fn law_nonsense_ends_the_connection<W: Wire>(
    before: RuntimeView<W>,
    bytes: &[u8],
    error: CoreError,
    after: ConnectionView,
)
    requires
        datagram_taken(before, bytes, Err(error), after),
    ensures
        !(error is Protocol) && !(error is ConnectionIdMismatch) ==> after.state
            == ConnectionState::Closing || after.state == ConnectionState::Closed,
{
}

/// The time that a connection is told has passed is the time since it was told last.
pub proof fn law_no_time_is_lost<W: Wire>(
    before: RuntimeView<W>,
    now: Duration,
    elapsed: Duration,
    outcome: Result<(), CoreError>,
    after: RuntimeView<W>,
)
    requires
        clocked(before, now, elapsed, outcome, after),
        before.last_advanced_at@ <= now@,
    ensures
        elapsed@ == now@ - before.last_advanced_at@,
        after.last_advanced_at == now,
        time_done(&before.wire, before.core, elapsed, after.core, outcome),
        after.reads == before.reads,
        after.writes == before.writes,
{
}

/// A connection has something to do when the first of its timers is due, counted from
/// the time at which its clock last went on: none is due sooner, and one is due then.
pub proof fn law_connection_is_due_with_its_first_timer<W: Wire>(
    runtime: RuntimeView<W>,
    at: nat,
    key: u64,
)
    requires
        due_at(runtime, at),
        at < MAX_NANOS,
        runtime.core.timers.remainder < runtime.core.timers.tick_nanos,
        runtime.core.timers.timers.contains_key(key),
    ensures
        ({
            let timers = runtime.core.timers;
            let wait = at - runtime.last_advanced_at@;
            &&& wait >= 0
            &&& wait > 0 ==> wait + timers.remainder <= (timers.timers[key].deadline_tick
                - timers.tick) * timers.tick_nanos
            &&& exists|first: u64| #[trigger]
                timers.timers.contains_key(first) && if timers.timers[first].deadline_tick
                    > timers.tick {
                    wait + timers.remainder == (timers.timers[first].deadline_tick - timers.tick)
                        * timers.tick_nanos
                } else {
                    wait == 0
                }
        }),
{
    let timers = runtime.core.timers;
    let left = choose|left: nat| #[trigger]
        time_left(runtime.core, left) && at == lesser(
            (runtime.last_advanced_at@ + left) as int,
            MAX_NANOS as int,
        );
    let deadline = choose|deadline: u64| #[trigger]
        is_earliest(timers.timers, deadline) && left == nanos_until(
            deadline,
            timers.tick,
            timers.remainder,
            timers.tick_nanos,
        );
    let first = choose|first: u64| #[trigger]
        timers.timers.contains_key(first) && timers.timers[first].deadline_tick == deadline;
    assert(timers.timers.contains_key(first));
    let nanos = timers.tick_nanos;
    let ticks = deadline - timers.tick;
    let others = timers.timers[key].deadline_tick - timers.tick;
    assert(ticks >= 1 ==> ticks * nanos >= nanos) by (nonlinear_arith)
        requires
            nanos >= 0,
    ;
    assert(ticks * nanos <= others * nanos) by (nonlinear_arith)
        requires
            ticks <= others,
            nanos >= 0,
    ;
}

/// An endpoint waits no longer than until the first of its connections has something
/// to do.
pub proof fn law_endpoint_waits_for_the_first<W: Wire>(
    endpoint: &EventLoop<W>,
    result: Result<Option<Duration>, CoreError>,
    key: u64,
)
    requires
        endpoint.well_formed(),
        call_ensures(EventLoop::<W>::next_deadline, (endpoint,), result),
        endpoint@.connections.contains_key(key),
        endpoint@.connections[key].core.timers.timers.dom().len() > 0,
    ensures
        result is Ok ==> result->Ok_0 is Some,
        result is Ok ==> exists|other: u64| #[trigger]
            endpoint@.connections.contains_key(other) && due_at(
                endpoint@.connections[other],
                result->Ok_0->0@,
            ),
        result is Ok ==> exists|at: nat| #[trigger]
            due_at(endpoint@.connections[key], at) && result->Ok_0->0@ <= at,
{
}

/// Once all is acknowledged, every request for a flush is answered that it is done, in
/// their order; until then none is.
pub proof fn law_flushes_are_answered_together<W: Wire>(
    before: RuntimeView<W>,
    after: RuntimeView<W>,
    at: int,
)
    requires
        settled(before, after),
        before.core.state != ConnectionState::Closed,
        0 <= at < before.flushes.len(),
    ensures
        ({
            let done = before.core.transport.pending.len() == 0 && (forall|number: u64|
                !(#[trigger] before.core.transport.sent.contains_key(number))) && forall|id: u64|
                #[trigger]
                before.core.streams.contains_key(id) ==> before.core.streams[id].send.queue.len()
                    == 0;
            &&& done ==> {
                &&& after.flushes.len() == 0
                &&& after.actions.len() == before.actions.len() + before.flushes.len()
                &&& after.actions[before.actions.len() + at] == (ActionView::Reply {
                    request: before.flushes[at],
                    reply: ReplyView::Flush(Ok(())),
                })
            }
            &&& !done ==> after == before
        }),
{
    if forall|number: u64| !(#[trigger] before.core.transport.sent.contains_key(number)) {
        assert(before.core.transport.sent =~= Map::<u64, SentView>::empty());
    }
}

/// A connection that is closed is given up.
pub proof fn law_closed_connection_is_given_up<W: Wire>(
    before: RuntimeView<W>,
    after: RuntimeView<W>,
)
    requires
        settled(before, after),
    ensures
        before.core.state == ConnectionState::Closed ==> after.gone,
        before.core.state != ConnectionState::Closed ==> after.gone == before.gone,
{
}

} // verus!
