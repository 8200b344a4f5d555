//! One connection of an endpoint and the requests that wait for it.

use std::collections::VecDeque;

use vstd::prelude::*;

use crate::duration::{Duration, MAX_NANOS};
use crate::net::SocketAddr;
use crate::ordered_map::OrderedMap;
use crate::reliable_core::connection::{read_view, Connection};
use crate::reliable_core::event::{output_views, ConnectionState, CoreOutput, OutputView};
use crate::reliable_core::transition::{
    all_acknowledged, bytes_done, close_done, ended, layout_read, layout_written, open_done,
    packet_view, read_done, sending, sent_on, stream_read, time_done, write_done, write_refused,
    ConnectionView,
};
use crate::reliable_core::streams::after_read;
use crate::reliable_core::{greater, lesser, CoreError};
use crate::reliable_udp::action::{
    action_views, lemma_action_pushed, Action, ActionView, Reply, ReplyView,
};
use crate::reliable_udp::error::{ConnectError, EndpointError, StreamError};
use crate::time_wheel::wheel::{beyond_reach, is_earliest, nanos_until};
use crate::time_wheel::TimerError;
use crate::wire::{Packet, PacketView, ProtocolError, StreamId, Wire};

verus! {

/// A read that waits for bytes.
#[derive(Debug, Clone, Copy, PartialEq, Eq, Structural)]
pub struct PendingRead {
    pub max_len: usize,
    pub request: u64,
}

/// A write that waits for room.
#[derive(Debug)]
pub struct PendingWrite {
    data: Vec<u8>,
    fin: bool,
    request: u64,
}

/// A [`PendingWrite`], as contracts see it.
#[verifier::ext_equal]
pub struct WriteView {
    pub data: Seq<u8>,
    pub fin: bool,
    pub request: u64,
}

/// A connection of an endpoint, as contracts see it.
#[verifier::ext_equal]
pub struct RuntimeView<W> {
    pub core: ConnectionView,
    /// The layout of its packets.
    pub wire: W,
    pub peer: SocketAddr,
    pub is_server: bool,
    pub last_advanced_at: Duration,
    pub connect_waiter: Option<u64>,
    pub accepted: bool,
    /// Streams that the other side opened and nobody took yet.
    pub incoming: Seq<StreamId>,
    /// Requests that wait for a stream.
    pub accepts: Seq<u64>,
    pub reads: Map<u64, PendingRead>,
    pub writes: Map<u64, WriteView>,
    /// Requests that wait until all is acknowledged.
    pub flushes: Seq<u64>,
    /// What is to be done.
    pub actions: Seq<ActionView>,
    /// Datagrams sent in a row.
    pub burst: usize,
    /// Whether the endpoint has given the connection up.
    pub gone: bool,
}

/// One action more.
pub open spec fn acting<W: Wire>(view: RuntimeView<W>, action: ActionView) -> RuntimeView<W> {
    RuntimeView { actions: view.actions.push(action), ..view }
}

/// The answer to a request.
pub open spec fn replying<W: Wire>(
    view: RuntimeView<W>,
    request: u64,
    reply: ReplyView,
) -> RuntimeView<W> {
    acting(view, ActionView::Reply { request, reply })
}

/// The answer to who opens a stream.
pub open spec fn opening_reply(outcome: Result<StreamId, CoreError>) -> ReplyView {
    match outcome {
        Ok(id) => ReplyView::Stream(Ok(id)),
        Err(error) => ReplyView::Stream(Err(StreamError::Core(error))),
    }
}

/// The answer to who ends a connection.
pub open spec fn closing_reply(outcome: Result<(), CoreError>) -> ReplyView {
    match outcome {
        Ok(_) => ReplyView::Close(Ok(())),
        Err(error) => ReplyView::Close(Err(ConnectError::Core(error))),
    }
}

/// What follows once a stream was read: the request is answered, or it waits for
/// bytes in the place of another one.
pub open spec fn read_replied<W: Wire>(
    view: RuntimeView<W>,
    stream_id: StreamId,
    wait: PendingRead,
    outcome: Result<(Seq<u8>, bool), CoreError>,
) -> RuntimeView<W> {
    match outcome {
        Ok(read) => if read.0.len() > 0 || read.1 {
            replying(view, wait.request, ReplyView::Read(Ok(read)))
        } else {
            let cleared = if view.reads.contains_key(stream_id.value) {
                acting(
                    view,
                    ActionView::Abandon { request: view.reads[stream_id.value].request },
                )
            } else {
                view
            };
            RuntimeView { reads: view.reads.insert(stream_id.value, wait), ..cleared }
        },
        Err(error) => replying(view, wait.request, ReplyView::Read(Err(StreamError::Core(error)))),
    }
}

/// What a read does.
pub open spec fn read_asked<W: Wire>(
    before: RuntimeView<W>,
    stream_id: StreamId,
    wait: PendingRead,
    after: RuntimeView<W>,
) -> bool {
    exists|outcome: Result<(Seq<u8>, bool), CoreError>| #[trigger]
        read_done(&before.wire, before.core, stream_id, wait.max_len, after.core, outcome) && after
            == read_replied(
            RuntimeView { core: after.core, ..before },
            stream_id,
            wait,
            outcome,
        )
}

/// What follows once a stream was written: the request is answered, or it waits
/// for room in the place of another one.
pub open spec fn write_replied<W: Wire>(
    view: RuntimeView<W>,
    stream_id: StreamId,
    wait: WriteView,
    outcome: Result<usize, CoreError>,
) -> RuntimeView<W> {
    match outcome {
        Ok(amount) => replying(view, wait.request, ReplyView::Write(Ok(amount))),
        Err(error) => if error is SendBufferFull {
            let cleared = if view.writes.contains_key(stream_id.value) {
                acting(
                    view,
                    ActionView::Abandon { request: view.writes[stream_id.value].request },
                )
            } else {
                view
            };
            RuntimeView { writes: view.writes.insert(stream_id.value, wait), ..cleared }
        } else {
            replying(view, wait.request, ReplyView::Write(Err(StreamError::Core(error))))
        },
    }
}

/// What a write does.
pub open spec fn write_asked<W: Wire>(
    before: RuntimeView<W>,
    stream_id: StreamId,
    wait: WriteView,
    after: RuntimeView<W>,
) -> bool {
    exists|outcome: Result<usize, CoreError>| #[trigger]
        write_done(&before.wire, before.core, stream_id, wait.data, wait.fin, after.core, outcome) && after
            == write_replied(
            RuntimeView { core: after.core, ..before },
            stream_id,
            wait,
            outcome,
        )
}

/// A stream that the other side opened goes to who waits for one.
pub open spec fn stream_offered<W: Wire>(
    view: RuntimeView<W>,
    stream_id: StreamId,
) -> RuntimeView<W> {
    if view.accepts.len() > 0 {
        replying(
            RuntimeView {
                accepts: view.accepts.subrange(1, view.accepts.len() as int),
                ..view
            },
            view.accepts[0],
            ReplyView::Stream(Ok(stream_id)),
        )
    } else {
        RuntimeView { incoming: view.incoming.push(stream_id), ..view }
    }
}

/// A read that waits is tried again.
pub open spec fn read_served<W: Wire>(
    before: RuntimeView<W>,
    stream_id: StreamId,
    after: RuntimeView<W>,
) -> bool {
    if before.reads.contains_key(stream_id.value) {
        read_asked(
            RuntimeView { reads: before.reads.remove(stream_id.value), ..before },
            stream_id,
            before.reads[stream_id.value],
            after,
        )
    } else {
        after == before
    }
}

/// The write that waits under this number is tried again.
pub open spec fn write_served<W: Wire>(
    before: RuntimeView<W>,
    key: u64,
    after: RuntimeView<W>,
) -> bool {
    write_asked(
        RuntimeView { writes: before.writes.remove(key), ..before },
        StreamId { value: key },
        before.writes[key],
        after,
    )
}

/// The first `count` writes that wait are tried again.
pub open spec fn writes_served<W: Wire>(
    before: RuntimeView<W>,
    keys: Seq<u64>,
    count: int,
    after: RuntimeView<W>,
) -> bool
    decreases count,
{
    if count <= 0 {
        after == before
    } else {
        exists|middle: RuntimeView<W>| #[trigger]
            write_served(middle, keys[count - 1], after) && writes_served(
                before,
                keys,
                count - 1,
                middle,
            )
    }
}

/// The numbers are those of the map, in rising order.
pub open spec fn rising_keys<V>(keys: Seq<u64>, map: Map<u64, V>) -> bool {
    &&& forall|i: int, j: int| 0 <= i < j < keys.len() ==> keys[i] < keys[j]
    &&& forall|key: u64| #[trigger] keys.contains(key) <==> map.contains_key(key)
}

/// Requests on a stream that cannot be served are told so.
pub open spec fn stream_failed<W: Wire>(
    view: RuntimeView<W>,
    key: u64,
    error_code: u32,
) -> RuntimeView<W> {
    let closed = StreamError::ConnectionClosed { error_code };
    let one = if view.reads.contains_key(key) {
        replying(
            RuntimeView { reads: view.reads.remove(key), ..view },
            view.reads[key].request,
            ReplyView::Read(Err(closed)),
        )
    } else {
        view
    };
    if view.writes.contains_key(key) {
        replying(
            RuntimeView { writes: view.writes.remove(key), ..one },
            view.writes[key].request,
            ReplyView::Write(Err(closed)),
        )
    } else {
        one
    }
}

/// The reads under the numbers are told that the connection is closed.
pub open spec fn reads_closed(
    reads: Map<u64, PendingRead>,
    keys: Seq<u64>,
    error_code: u32,
) -> Seq<ActionView> {
    Seq::new(
        keys.len(),
        |i: int|
            ActionView::Reply {
                request: reads[keys[i]].request,
                reply: ReplyView::Read(Err(StreamError::ConnectionClosed { error_code })),
            },
    )
}

/// The writes under the numbers are told that the connection is closed.
pub open spec fn writes_closed(
    writes: Map<u64, WriteView>,
    keys: Seq<u64>,
    error_code: u32,
) -> Seq<ActionView> {
    Seq::new(
        keys.len(),
        |i: int|
            ActionView::Reply {
                request: writes[keys[i]].request,
                reply: ReplyView::Write(Err(StreamError::ConnectionClosed { error_code })),
            },
    )
}

/// Those who wait for a stream are told that the connection is closed.
pub open spec fn accepts_closed(requests: Seq<u64>, error_code: u32) -> Seq<ActionView> {
    Seq::new(
        requests.len(),
        |i: int|
            ActionView::Reply {
                request: requests[i],
                reply: ReplyView::Stream(Err(StreamError::ConnectionClosed { error_code })),
            },
    )
}

/// Those who wait until all is acknowledged get this answer.
pub open spec fn flushes_answered(
    requests: Seq<u64>,
    result: Result<(), StreamError>,
) -> Seq<ActionView> {
    Seq::new(
        requests.len(),
        |i: int| ActionView::Reply { request: requests[i], reply: ReplyView::Flush(result) },
    )
}

/// Who waits for the connection is told that it is closed.
pub open spec fn connect_closed(waiter: Option<u64>, error_code: u32) -> Seq<ActionView> {
    match waiter {
        Some(request) => seq![
            ActionView::Reply {
                request,
                reply: ReplyView::Connect(Err(ConnectError::ConnectionClosed { error_code })),
            },
        ],
        None => Seq::empty(),
    }
}

/// Everybody who waits is told that the connection is closed.
pub open spec fn all_closed<W: Wire>(
    before: RuntimeView<W>,
    error_code: u32,
    after: RuntimeView<W>,
) -> bool {
    exists|reading: Seq<u64>, writing: Seq<u64>|
        #![trigger rising_keys(reading, before.reads), rising_keys(writing, before.writes)]
        rising_keys(reading, before.reads) && rising_keys(writing, before.writes) && after == (
        RuntimeView {
            reads: Map::empty(),
            writes: Map::empty(),
            accepts: Seq::empty(),
            connect_waiter: None,
            flushes: Seq::empty(),
            actions: before.actions + reads_closed(before.reads, reading, error_code)
                + writes_closed(before.writes, writing, error_code) + accepts_closed(
                before.accepts,
                error_code,
            ) + connect_closed(before.connect_waiter, error_code) + flushes_answered(
                before.flushes,
                Err(StreamError::ConnectionClosed { error_code }),
            ),
            ..before
        })
}

/// The connection is given up, and everybody who waits is told so.
pub open spec fn retired<W: Wire>(
    before: RuntimeView<W>,
    error_code: u32,
    after: RuntimeView<W>,
) -> bool {
    all_closed(before, error_code, RuntimeView { gone: before.gone, ..after }) && after.gone
}

/// The layout of a packet is to be sent, or there is none.
pub open spec fn packet_handed<W: Wire>(
    before: RuntimeView<W>,
    packet: PacketView,
    batch: usize,
    after: RuntimeView<W>,
    result: Result<(), EndpointError>,
) -> bool {
    exists|given: Packet, encoded: Result<Vec<u8>, ProtocolError>|
        given@ == packet && #[trigger] layout_written(before.core, &given, &before.wire, encoded)
            && datagram_handed(before, batch, encoded, after, result)
}

/// A datagram that was laid out is to be sent to the other side. After each
/// batch of them, others get a turn.
pub open spec fn datagram_handed<W: Wire>(
    before: RuntimeView<W>,
    batch: usize,
    encoded: Result<Vec<u8>, ProtocolError>,
    after: RuntimeView<W>,
    result: Result<(), EndpointError>,
) -> bool {
    match encoded {
        Err(problem) => after == before && result == Err::<(), EndpointError>(
            EndpointError::Core(CoreError::Protocol(problem)),
        ),
        Ok(bytes) => {
            let sent = acting(before, ActionView::Datagram { bytes: bytes@, peer: before.peer });
            &&& result is Ok
            &&& after == (if before.burst + 1 >= batch {
                acting(RuntimeView { burst: 0, ..sent }, ActionView::Yield)
            } else {
                RuntimeView { burst: (before.burst + 1) as usize, ..sent }
            })
        },
    }
}

/// The connection is established: who accepts connections gets it, unless there
/// is no room, and who asked for it is told.
pub open spec fn established<W: Wire>(
    before: RuntimeView<W>,
    slot_free: bool,
    after: RuntimeView<W>,
) -> bool {
    if before.is_server && !before.accepted && !slot_free {
        retired(before, 0, after)
    } else {
        let offered = if before.is_server && !before.accepted {
            acting(
                RuntimeView { accepted: true, ..before },
                ActionView::Accept { connection_id: before.core.id },
            )
        } else {
            before
        };
        after == (match before.connect_waiter {
            Some(request) => replying(
                RuntimeView { connect_waiter: None, ..offered },
                request,
                ReplyView::Connect(Ok(before.core.id)),
            ),
            None => offered,
        })
    }
}

/// What an output of the connection leads to.
pub open spec fn output_done<W: Wire>(
    before: RuntimeView<W>,
    output: OutputView,
    batch: usize,
    slot_free: bool,
    after: RuntimeView<W>,
    result: Result<(), EndpointError>,
) -> bool {
    if before.gone {
        &&& after == before
        &&& match output {
            OutputView::Send(_) => result == Err::<(), EndpointError>(EndpointError::Closed),
            _ => result is Ok,
        }
    } else {
        match output {
            OutputView::Send(packet) => packet_handed(before, packet, batch, after, result),
            OutputView::StreamOpened(stream_id) => result is Ok && after == stream_offered(
                before,
                stream_id,
            ),
            OutputView::StreamReadable(stream_id) => result is Ok && read_served(
                before,
                stream_id,
                after,
            ),
            OutputView::StreamFinished(stream_id) => result is Ok && read_served(
                before,
                stream_id,
                after,
            ),
            OutputView::StreamReset { stream_id, error_code } => result is Ok && after
                == stream_failed(before, stream_id.value, error_code),
            OutputView::ConnectionStateChanged(state) => result is Ok && if state
                == ConnectionState::Established {
                established(before, slot_free, after)
            } else {
                after == before
            },
            OutputView::ConnectionClosed { error_code } => result is Ok && all_closed(
                before,
                error_code,
                after,
            ),
        }
    }
}

/// What an output leads to after what came before it: nothing, after an error.
pub open spec fn output_follows<W: Wire>(
    before: RuntimeView<W>,
    so_far: Result<(), EndpointError>,
    output: OutputView,
    batch: usize,
    slot_free: bool,
    after: RuntimeView<W>,
    result: Result<(), EndpointError>,
) -> bool {
    if so_far is Ok {
        output_done(before, output, batch, slot_free, after, result)
    } else {
        after == before && result == so_far
    }
}

/// What the first `count` outputs lead to, one after the other, up to an error.
pub open spec fn outputs_done<W: Wire>(
    before: RuntimeView<W>,
    outputs: Seq<OutputView>,
    count: int,
    batch: usize,
    slot_free: bool,
    after: RuntimeView<W>,
    result: Result<(), EndpointError>,
) -> bool
    decreases count,
{
    if count <= 0 {
        after == before && result is Ok
    } else {
        exists|middle: RuntimeView<W>, so_far: Result<(), EndpointError>| #[trigger]
            output_follows(
                middle,
                so_far,
                outputs[count - 1],
                batch,
                slot_free,
                after,
                result,
            ) && outputs_done(before, outputs, count - 1, batch, slot_free, middle, so_far)
    }
}

/// One round: all outputs that wait are handled or, if there are none, the
/// writes that wait are tried again.
pub open spec fn round_done<W: Wire>(
    before: RuntimeView<W>,
    batch: usize,
    slot_free: bool,
    after: RuntimeView<W>,
    result: Result<(), EndpointError>,
) -> bool {
    let outputs = before.core.output;
    if outputs.len() > 0 {
        outputs_done(
            RuntimeView {
                core: ConnectionView { output: Seq::empty(), ..before.core },
                ..before
            },
            outputs,
            outputs.len() as int,
            batch,
            slot_free,
            after,
            result,
        )
    } else {
        result is Ok && exists|keys: Seq<u64>| #[trigger]
            rising_keys(keys, before.writes) && writes_served(
                before,
                keys,
                keys.len() as int,
                after,
            )
    }
}

/// `count` rounds, one after the other, up to an error.
pub open spec fn rounds_done<W: Wire>(
    before: RuntimeView<W>,
    count: nat,
    batch: usize,
    slot_free: bool,
    after: RuntimeView<W>,
    result: Result<(), EndpointError>,
) -> bool
    decreases count,
{
    if count == 0 {
        after == before && result is Ok
    } else {
        exists|middle: RuntimeView<W>| #[trigger]
            round_done(middle, batch, slot_free, after, result) && rounds_done(
                before,
                (count - 1) as nat,
                batch,
                slot_free,
                middle,
                Ok(()),
            )
    }
}

/// Those who wait until all is acknowledged are told once it is.
pub open spec fn flushes_served<W: Wire>(view: RuntimeView<W>) -> RuntimeView<W> {
    if all_acknowledged(view.core) {
        RuntimeView {
            flushes: Seq::empty(),
            actions: view.actions + flushes_answered(view.flushes, Ok(())),
            ..view
        }
    } else {
        view
    }
}

/// What follows once there is no output left and no write can be served: a
/// connection that is closed is given up.
pub open spec fn settled<W: Wire>(before: RuntimeView<W>, after: RuntimeView<W>) -> bool {
    let served = flushes_served(before);
    if before.core.state == ConnectionState::Closed {
        retired(served, 0, after)
    } else {
        after == served
    }
}

/// What all outputs of a connection lead to.
pub open spec fn outputs_processed<W: Wire>(
    before: RuntimeView<W>,
    batch: usize,
    slot_free: bool,
    after: RuntimeView<W>,
    result: Result<(), EndpointError>,
) -> bool {
    exists|count: nat, last: RuntimeView<W>| #[trigger]
        rounds_done(
            RuntimeView { burst: 0, ..before },
            count,
            batch,
            slot_free,
            last,
            result,
        ) && if result is Ok && !last.gone {
            &&& last.core.output.len() == 0
            &&& writes_stuck(last)
            &&& settled(last, after)
        } else {
            after == last
        }
}

/// No write that waits can be served: there is no room for it.
pub open spec fn writes_stuck<W: Wire>(view: RuntimeView<W>) -> bool {
    forall|key: u64| #[trigger]
        view.writes.contains_key(key) ==> write_refused(
            view.core,
            StreamId { value: key },
            view.writes[key].data.len(),
        ) == Some(CoreError::SendBufferFull)
}

/// The clock of the connection went on up to `now`, with this outcome.
pub open spec fn clocked<W: Wire>(
    before: RuntimeView<W>,
    now: Duration,
    elapsed: Duration,
    outcome: Result<(), CoreError>,
    after: RuntimeView<W>,
) -> bool {
    &&& elapsed@ == greater(now@ - before.last_advanced_at@, 0)
    &&& time_done(&before.wire, before.core, elapsed, after.core, outcome)
    &&& after == (RuntimeView { core: after.core, last_advanced_at: now, ..before })
}

/// What time does that passes.
pub open spec fn advanced<W: Wire>(
    before: RuntimeView<W>,
    now: Duration,
    batch: usize,
    slot_free: bool,
    after: RuntimeView<W>,
    result: Result<(), EndpointError>,
) -> bool {
    exists|elapsed: Duration, outcome: Result<(), CoreError>, moved: RuntimeView<W>| #[trigger]
        clocked(before, now, elapsed, outcome, moved) && if outcome is Ok {
            outputs_processed(moved, batch, slot_free, after, result)
        } else {
            retired(moved, 4, after) && result is Ok
        }
}

/// A datagram was taken with this outcome; one that makes no sense ended the
/// connection.
pub open spec fn datagram_taken<W: Wire>(
    before: RuntimeView<W>,
    bytes: &[u8],
    outcome: Result<(), CoreError>,
    after: ConnectionView,
) -> bool {
    exists|
        encrypted: Result<bool, ProtocolError>,
        packet: Result<Packet, ProtocolError>,
        taken: ConnectionView,
    |
        #![trigger layout_read(before.core, bytes, &before.wire, encrypted, packet),
            bytes_done(&before.wire, before.core, encrypted, packet_view(packet), taken, outcome)]
        layout_read(before.core, bytes, &before.wire, encrypted, packet) && bytes_done(
            &before.wire,
            before.core,
            encrypted,
            packet_view(packet),
            taken,
            outcome,
        ) && match outcome {
            Ok(_) => after == taken,
            Err(error) => if error is Protocol || error is ConnectionIdMismatch {
                after == taken
            } else {
                ended_for_nonsense(&before.wire, taken, after)
            },
        }
}

/// A connection was ended because a datagram made no sense.
pub open spec fn ended_for_nonsense<W: Wire>(
    wire: &W,
    before: ConnectionView,
    after: ConnectionView,
) -> bool {
    exists|closed: Result<(), CoreError>| #[trigger]
        close_done(wire, before, 4, "invalid datagram"@, after, closed)
}

/// What a datagram does.
pub open spec fn received<W: Wire>(
    before: RuntimeView<W>,
    bytes: &[u8],
    batch: usize,
    slot_free: bool,
    after: RuntimeView<W>,
    result: Result<(), EndpointError>,
) -> bool {
    exists|outcome: Result<(), CoreError>, core: ConnectionView| #[trigger]
        datagram_taken(before, bytes, outcome, core) && outputs_processed(
            RuntimeView { core, ..before },
            batch,
            slot_free,
            after,
            result,
        )
}

/// The time left until a timer of the connection is due.
pub open spec fn time_left(core: ConnectionView, left: nat) -> bool {
    exists|deadline: u64| #[trigger]
        is_earliest(core.timers.timers, deadline) && left == nanos_until(
            deadline,
            core.timers.tick,
            core.timers.remainder,
            core.timers.tick_nanos,
        )
}

/// The earliest timer of the connection is due later than the longest span from
/// now.
pub open spec fn too_far(core: ConnectionView) -> bool {
    beyond_reach(
        core.timers.timers,
        core.timers.tick,
        core.timers.remainder,
        core.timers.tick_nanos,
    )
}

/// Whether a request waits here.
pub open spec fn waits<W: Wire>(view: RuntimeView<W>, request: u64) -> bool {
    ||| view.connect_waiter == Some(request)
    ||| view.accepts.contains(request)
    ||| view.flushes.contains(request)
    ||| waits_to_read(view.reads, request)
    ||| waits_to_write(view.writes, request)
}

/// Whether a request waits for bytes.
pub open spec fn waits_to_read(reads: Map<u64, PendingRead>, request: u64) -> bool {
    exists|key: u64| #[trigger] reads.contains_key(key) && reads[key].request == request
}

/// Whether a request waits for room.
pub open spec fn waits_to_write(writes: Map<u64, WriteView>, request: u64) -> bool {
    exists|key: u64| #[trigger] writes.contains_key(key) && writes[key].request == request
}

/// Writes that wait, as contracts see them.
spec fn write_views(writes: Map<u64, PendingWrite>) -> Map<u64, WriteView> {
    Map::new(
        |key: u64| writes.contains_key(key),
        |key: u64|
            WriteView {
                data: writes[key].data@,
                fin: writes[key].fin,
                request: writes[key].request,
            },
    )
}

/// One connection of an endpoint and the requests that wait for it.
pub struct Runtime<W> {
    core: Connection,
    wire: W,
    peer: SocketAddr,
    is_server: bool,
    last_advanced_at: Duration,
    connect_waiter: Option<u64>,
    accepted: bool,
    incoming_streams: VecDeque<StreamId>,
    pending_accepts: VecDeque<u64>,
    pending_reads: OrderedMap<PendingRead>,
    pending_writes: OrderedMap<PendingWrite>,
    pending_flushes: Vec<u64>,
    actions: Vec<Action>,
    burst: usize,
    gone: bool,
}

impl<W> View for Runtime<W> {
    type V = RuntimeView<W>;

    closed spec fn view(&self) -> RuntimeView<W> {
        RuntimeView {
            core: self.core@,
            wire: self.wire,
            peer: self.peer,
            is_server: self.is_server,
            last_advanced_at: self.last_advanced_at,
            connect_waiter: self.connect_waiter,
            accepted: self.accepted,
            incoming: self.incoming_streams@,
            accepts: self.pending_accepts@,
            reads: self.pending_reads@,
            writes: write_views(self.pending_writes@),
            flushes: self.pending_flushes@,
            actions: action_views(self.actions@),
            burst: self.burst,
            gone: self.gone,
        }
    }
}

impl<W: Wire> Runtime<W> {
    /// The parts are right, and the clock of the connection is not ahead.
    pub closed spec fn well_formed(&self) -> bool {
        &&& self.core.well_formed()
        &&& self.pending_reads.well_formed()
        &&& self.pending_writes.well_formed()
        &&& self.core@.now@ <= self.last_advanced_at@
        &&& self.last_advanced_at@ * 8 <= MAX_NANOS
    }

    /// A connection for which nothing waits but, maybe, who asked for it.
    pub fn new(
        core: Connection,
        wire: W,
        peer: SocketAddr,
        is_server: bool,
        now: Duration,
        connect_waiter: Option<u64>,
    ) -> (runtime: Self)
        requires
            core.well_formed(),
            core@.now@ <= now@,
            now@ * 8 <= MAX_NANOS,
        ensures
            runtime.well_formed(),
            runtime@ == (RuntimeView {
                core: core@,
                wire,
                peer,
                is_server,
                last_advanced_at: now,
                connect_waiter,
                accepted: !is_server,
                incoming: Seq::empty(),
                accepts: Seq::empty(),
                reads: Map::empty(),
                writes: Map::empty(),
                flushes: Seq::empty(),
                actions: Seq::empty(),
                burst: 0,
                gone: false,
            }),
    {
        let runtime = Runtime {
            core,
            wire,
            peer,
            is_server,
            last_advanced_at: now,
            connect_waiter,
            accepted: !is_server,
            incoming_streams: VecDeque::new(),
            pending_accepts: VecDeque::new(),
            pending_reads: OrderedMap::new(),
            pending_writes: OrderedMap::new(),
            pending_flushes: Vec::new(),
            actions: Vec::new(),
            burst: 0,
            gone: false,
        };
        assert(runtime@.writes =~= Map::empty());
        assert(runtime@.actions =~= Seq::empty());
        runtime
    }

    /// Who the connection is with.
    pub fn peer(&self) -> (peer: SocketAddr)
        ensures
            peer == self@.peer,
    {
        self.peer
    }

    /// Whether the endpoint has given the connection up.
    pub fn is_gone(&self) -> (gone: bool)
        ensures
            gone == self@.gone,
    {
        self.gone
    }

    /// Takes what is to be done.
    pub fn take_actions(&mut self) -> (actions: Vec<Action>)
        requires
            old(self).well_formed(),
        ensures
            final(self).well_formed(),
            action_views(actions@) == old(self)@.actions,
            final(self)@ == (RuntimeView { actions: Seq::empty(), ..old(self)@ }),
    {
        let mut actions: Vec<Action> = Vec::new();
        std::mem::swap(&mut actions, &mut self.actions);
        assert(self@.actions =~= Seq::empty());
        actions
    }

    /// Has something done.
    fn act(&mut self, action: Action)
        requires
            old(self).well_formed(),
        ensures
            final(self).well_formed(),
            final(self)@ == acting(old(self)@, action@),
            final(self).keeps(old(self)),
    {
        proof {
            lemma_action_pushed(self.actions@, action);
        }
        self.actions.push(action);
    }

    /// Answers a request.
    fn reply(&mut self, request: u64, reply: Reply)
        requires
            old(self).well_formed(),
        ensures
            final(self).well_formed(),
            final(self)@ == replying(old(self)@, request, reply@),
            final(self).keeps(old(self)),
    {
        self.act(Action::Reply { request, reply });
    }

    /// The order in which requests are walked is the same.
    spec fn keeps(&self, other: &Self) -> bool {
        &&& self.pending_reads == other.pending_reads
        &&& self.pending_writes == other.pending_writes
        &&& self.pending_flushes == other.pending_flushes
        &&& self.pending_accepts == other.pending_accepts
    }

    /// Opens a stream.
    pub fn open_stream(&mut self, request: u64)
        requires
            old(self).well_formed(),
        ensures
            final(self).well_formed(),
            exists|outcome: Result<StreamId, CoreError>| #[trigger]
                open_done(&old(self)@.wire, old(self)@.core, final(self)@.core, outcome) && final(self)@ == replying(
                    RuntimeView { core: final(self)@.core, ..old(self)@ },
                    request,
                    opening_reply(outcome),
                ),
    {
        let opened = self.core.open_stream(&self.wire);
        let ghost outcome = opened;
        assert(open_done(&old(self)@.wire, old(self)@.core, self@.core, outcome));
        match opened {
            Ok(id) => self.reply(request, Reply::Stream(Ok(id))),
            Err(error) => self.reply(request, Reply::Stream(Err(StreamError::Core(error)))),
        }
    }

    /// Gives a stream that the other side opened, or waits for one.
    pub fn accept_stream(&mut self, request: u64)
        requires
            old(self).well_formed(),
        ensures
            final(self).well_formed(),
            final(self)@ == (if old(self)@.incoming.len() > 0 {
                replying(
                    RuntimeView {
                        incoming: old(self)@.incoming.subrange(
                            1,
                            old(self)@.incoming.len() as int,
                        ),
                        ..old(self)@
                    },
                    request,
                    ReplyView::Stream(Ok(old(self)@.incoming[0])),
                )
            } else {
                RuntimeView { accepts: old(self)@.accepts.push(request), ..old(self)@ }
            }),
    {
        match self.incoming_streams.pop_front() {
            Some(stream_id) => self.reply(request, Reply::Stream(Ok(stream_id))),
            None => self.pending_accepts.push_back(request),
        }
    }

    /// Reads from a stream, or waits for bytes.
    pub fn read(&mut self, stream_id: StreamId, max_len: usize, request: u64)
        requires
            old(self).well_formed(),
        ensures
            final(self).well_formed(),
            read_asked(old(self)@, stream_id, (PendingRead { max_len, request }), final(self)@),
    {
        self.ask_read(stream_id, PendingRead { max_len, request });
    }

    fn ask_read(&mut self, stream_id: StreamId, wait: PendingRead)
        requires
            old(self).well_formed(),
        ensures
            final(self).well_formed(),
            read_asked(old(self)@, stream_id, wait, final(self)@),
            final(self).pending_writes == old(self).pending_writes,
    {
        let read = self.core.read_stream(stream_id, wait.max_len, &self.wire);
        let ghost outcome = read_view(read);
        assert(read_done(&old(self)@.wire, old(self)@.core, stream_id, wait.max_len, self@.core, outcome));
        match read {
            Ok(result) => {
                if result.data.len() > 0 || result.eof {
                    self.reply(wait.request, Reply::Read(Ok(result)));
                } else {
                    match self.pending_reads.get(stream_id.value) {
                        Some(other) => {
                            let request: u64 = other.request;
                            self.act(Action::Abandon { request });
                        },
                        None => {},
                    }
                    self.pending_reads.insert(stream_id.value, wait);
                }
            },
            Err(error) => {
                self.reply(wait.request, Reply::Read(Err(StreamError::Core(error))));
            },
        }
    }

    /// Writes to a stream, or waits for room.
    pub fn write(&mut self, stream_id: StreamId, data: Vec<u8>, fin: bool, request: u64)
        requires
            old(self).well_formed(),
        ensures
            final(self).well_formed(),
            write_asked(
                old(self)@,
                stream_id,
                (WriteView { data: data@, fin, request }),
                final(self)@,
            ),
    {
        self.ask_write(stream_id, PendingWrite { data, fin, request });
    }

    fn ask_write(&mut self, stream_id: StreamId, wait: PendingWrite)
        requires
            old(self).well_formed(),
        ensures
            final(self).well_formed(),
            write_asked(
                old(self)@,
                stream_id,
                (WriteView { data: wait.data@, fin: wait.fin, request: wait.request }),
                final(self)@,
            ),
    {
        let ghost view = WriteView { data: wait.data@, fin: wait.fin, request: wait.request };
        let ghost before = self.pending_writes@;
        let written = self.core.write_stream(stream_id, &wait.data, wait.fin, &self.wire);
        let ghost outcome = written;
        match written {
            Ok(amount) => {
                self.reply(wait.request, Reply::Write(Ok(amount)));
            },
            Err(error) => match error {
                CoreError::SendBufferFull => {
                    match self.pending_writes.get(stream_id.value) {
                        Some(other) => {
                            let request: u64 = other.request;
                            assert(write_views(before)[stream_id.value].request == request);
                            self.act(Action::Abandon { request });
                        },
                        None => {},
                    }
                    self.pending_writes.insert(stream_id.value, wait);
                    assert(write_views(self.pending_writes@) =~= write_views(before).insert(
                        stream_id.value,
                        view,
                    ));
                },
                other => {
                    self.reply(wait.request, Reply::Write(Err(StreamError::Core(other))));
                },
            },
        }
        assert(self@ =~= write_replied(
            RuntimeView { core: self@.core, ..old(self)@ },
            stream_id,
            view,
            outcome,
        ));
        assert(write_done(
            &old(self)@.wire,
            old(self)@.core,
            stream_id,
            view.data,
            view.fin,
            self@.core,
            outcome,
        ));
    }

    /// Answers once all is acknowledged.
    pub fn flush(&mut self, request: u64)
        requires
            old(self).well_formed(),
        ensures
            final(self).well_formed(),
            final(self)@ == (if all_acknowledged(old(self)@.core) {
                replying(old(self)@, request, ReplyView::Flush(Ok(())))
            } else {
                RuntimeView { flushes: old(self)@.flushes.push(request), ..old(self)@ }
            }),
    {
        if self.core.is_reliably_flushed() {
            self.reply(request, Reply::Flush(Ok(())));
        } else {
            self.pending_flushes.push(request);
        }
    }

    /// Ends the connection.
    pub fn close(&mut self, error_code: u32, reason: String, request: u64)
        requires
            old(self).well_formed(),
        ensures
            final(self).well_formed(),
            exists|outcome: Result<(), CoreError>| #[trigger]
                close_done(
                    &old(self)@.wire,
                    old(self)@.core,
                    error_code,
                    reason@,
                    final(self)@.core,
                    outcome,
                ) && final(self)@ == replying(
                    RuntimeView { core: final(self)@.core, ..old(self)@ },
                    request,
                    closing_reply(outcome),
                ),
    {
        let ghost text = reason@;
        let closed = self.core.close(error_code, reason, &self.wire);
        let ghost outcome = closed;
        assert(close_done(&old(self)@.wire, old(self)@.core, error_code, text, self@.core, outcome));
        match closed {
            Ok(_) => self.reply(request, Reply::Close(Ok(()))),
            Err(error) => self.reply(request, Reply::Close(Err(ConnectError::Core(error)))),
        }
    }

    /// Lets time pass up to `now`: a connection whose clock fails is given up.
    pub fn advance(&mut self, now: Duration, batch: usize, slot_free: bool) -> (result: Result<
        (),
        EndpointError,
    >)
        requires
            old(self).well_formed(),
            old(self)@.last_advanced_at@ <= now@,
            now@ * 8 <= MAX_NANOS,
        ensures
            final(self).well_formed(),
            final(self)@.last_advanced_at == now,
            advanced(old(self)@, now, batch, slot_free, final(self)@, result),
    {
        let ghost first = self@;
        let elapsed = now.saturating_sub(self.last_advanced_at);
        let outcome = self.core.advance_time(elapsed, &self.wire);
        self.last_advanced_at = now;
        let ghost moved = self@;
        assert(time_done(&first.wire, first.core, elapsed, moved.core, outcome));
        match outcome {
            Err(_) => {
                self.retire(4);
                assert(clocked(first, now, elapsed, outcome, moved));
                Ok(())
            },
            Ok(_) => {
                assert(clocked(first, now, elapsed, outcome, moved));
                self.process_outputs(batch, slot_free)
            },
        }
    }

    /// Takes a datagram: one that makes no sense ends the connection, unless it
    /// may not be meant for it.
    pub fn receive(&mut self, bytes: &[u8], batch: usize, slot_free: bool) -> (result: Result<
        (),
        EndpointError,
    >)
        requires
            old(self).well_formed(),
        ensures
            final(self).well_formed(),
            same_link(old(self)@, final(self)@),
            received(old(self)@, bytes, batch, slot_free, final(self)@, result),
    {
        let ghost first = self@;
        let outcome = self.core.on_datagram_bytes(bytes, &self.wire);
        let ghost given = outcome;
        let ghost taken = self@.core;
        match outcome {
            Ok(_) => {
                assert(datagram_taken(first, bytes, given, self@.core));
            },
            Err(error) => match error {
                CoreError::Protocol(_) => {
                    assert(datagram_taken(first, bytes, given, self@.core));
                },
                CoreError::ConnectionIdMismatch => {
                    assert(datagram_taken(first, bytes, given, self@.core));
                },
                _ => {
                    let closed = self.core.close(4, "invalid datagram".to_owned(), &self.wire);
                    assert(close_done(&first.wire, taken, 4, "invalid datagram"@, self@.core, closed));
                    assert(datagram_taken(first, bytes, given, self@.core));
                },
            },
        }
        let ghost moved = self@;
        assert(moved == (RuntimeView { core: moved.core, ..first }));
        self.process_outputs(batch, slot_free)
    }

    /// The time left until a timer of the connection is due.
    pub fn next_deadline(&self) -> (result: Result<Option<Duration>, CoreError>)
        requires
            self.well_formed(),
        ensures
            match result {
                Ok(None) => self@.core.timers.timers.dom().len() == 0,
                Ok(Some(left)) => time_left(self@.core, left@),
                Err(error) => error == CoreError::Timer(TimerError::DeadlineOverflow),
            },
            result is Err <==> too_far(self@.core),
    {
        self.core.next_deadline()
    }

    /// The time up to which the clock of the connection went.
    pub fn last_advanced_at(&self) -> (at: Duration)
        ensures
            at == self@.last_advanced_at,
    {
        self.last_advanced_at
    }

    /// Hands a stream that the other side opened to who waits for one.
    fn on_stream_opened(&mut self, stream_id: StreamId)
        requires
            old(self).well_formed(),
        ensures
            final(self).well_formed(),
            final(self)@ == stream_offered(old(self)@, stream_id),
    {
        match self.pending_accepts.pop_front() {
            Some(request) => self.reply(request, Reply::Stream(Ok(stream_id))),
            None => self.incoming_streams.push_back(stream_id),
        }
    }

    /// Tries a read again that waits for bytes.
    fn service_read(&mut self, stream_id: StreamId)
        requires
            old(self).well_formed(),
        ensures
            final(self).well_formed(),
            read_served(old(self)@, stream_id, final(self)@),
    {
        let ghost first = self@;
        let waiting = self.pending_reads.remove(stream_id.value);
        let ghost removed = self@;
        assert(removed == (RuntimeView { reads: first.reads.remove(stream_id.value), ..first }));
        match waiting {
            Some(wait) => {
                self.ask_read(stream_id, wait);
                assert(read_asked(removed, stream_id, first.reads[stream_id.value], self@));
            },
            None => {
                assert(self@ =~= first);
            },
        }
    }

    /// Tries the writes again that wait for room; `true` if one was answered.
    fn service_pending_writes(&mut self) -> (changed: bool)
        requires
            old(self).well_formed(),
        ensures
            final(self).well_formed(),
            exists|keys: Seq<u64>| #[trigger]
                rising_keys(keys, old(self)@.writes) && writes_served(
                    old(self)@,
                    keys,
                    keys.len() as int,
                    final(self)@,
                ),
            final(self)@.reads == old(self)@.reads,
            final(self)@.gone == old(self)@.gone,
            same_link(old(self)@, final(self)@),
            changed ==> final(self)@.writes.dom().len() < old(self)@.writes.dom().len(),
            !changed ==> final(self)@ == old(self)@ && writes_stuck(final(self)@),
    {
        let ghost first = self@;
        let keys: Vec<u64> = self.waiting_writes();
        let mut changed: bool = false;
        let mut index: usize = 0;
        proof {
            self.lemma_finite();
            assert forall|i: int| 0 <= i < keys@.len() implies self@.writes.contains_key(
                #[trigger] keys@[i],
            ) by {
                assert(keys@.contains(keys@[i]));
            }
        }
        while index < keys.len()
            invariant
                index <= keys@.len(),
                self.well_formed(),
                first == old(self)@,
                rising_keys(keys@, first.writes),
                first.writes.dom().finite(),
                self@.writes.dom().finite(),
                self@.reads == first.reads,
                self@.gone == first.gone,
                same_link(first, self@),
                forall|i: int|
                    index <= i < keys@.len() ==> self@.writes.contains_key(#[trigger] keys@[i]),
                changed ==> self@.writes.dom().len() < first.writes.dom().len(),
                !changed ==> self@ == first && forall|i: int|
                    0 <= i < index ==> write_refused(
                        first.core,
                        StreamId { value: #[trigger] keys@[i] },
                        first.writes[keys@[i]].data.len(),
                    ) == Some(CoreError::SendBufferFull),
                writes_served(first, keys@, index as int, self@),
            decreases keys@.len() - index,
        {
            let key: u64 = keys[index];
            let ghost before = self@;
            let ghost held = self.pending_writes@;
            assert(self@.writes.contains_key(keys@[index as int]));
            match self.pending_writes.remove(key) {
                None => {},
                Some(wait) => {
                    assert(write_views(self.pending_writes@) =~= write_views(held).remove(key));
                    assert(write_views(held)[key] == (WriteView {
                        data: wait.data@,
                        fin: wait.fin,
                        request: wait.request,
                    }));
                    let ghost removed = self@;
                    assert(removed == (RuntimeView { writes: before.writes.remove(key), ..before }));
                    self.ask_write(StreamId::new(key), wait);
                    proof {
                        assert(write_served(before, key, self@));
                        lemma_write_served(before, key, self@);
                    }
                    if self.pending_writes.contains_key(key) {
                        assert(self@.writes.contains_key(key));
                        assert(self@ == before);
                    } else {
                        assert(!self@.writes.contains_key(key));
                        changed = true;
                    }
                },
            }
            proof {
                let next = index + 1;
                assert(write_served(before, keys@[next - 1], self@));
                assert(writes_served(first, keys@, next, self@));
                assert forall|i: int| index < i < keys@.len() implies self@.writes.contains_key(
                    #[trigger] keys@[i],
                ) by {
                    assert(keys@[index as int] < keys@[i]);
                }
            }
            index = index + 1;
        }
        proof {
            assert(rising_keys(keys@, first.writes));
            if !changed {
                assert forall|key: u64| #[trigger] self@.writes.contains_key(
                    key,
                ) implies write_refused(
                    self@.core,
                    StreamId { value: key },
                    self@.writes[key].data.len(),
                ) == Some(CoreError::SendBufferFull) by {
                    assert(keys@.contains(key));
                    let i = keys@.index_of(key);
                    assert(keys@[i] == key);
                }
            }
        }
        changed
    }

    /// Domains are finite.
    proof fn lemma_finite(&self)
        requires
            self.well_formed(),
        ensures
            self@.reads.dom().finite(),
            self@.writes.dom().finite(),
    {
        self.pending_reads.lemma_keys();
        self.pending_writes.lemma_keys();
        assert(self@.writes.dom() =~= self.pending_writes@.dom());
    }

    /// The streams on which writes wait.
    fn waiting_writes(&self) -> (keys: Vec<u64>)
        requires
            self.well_formed(),
        ensures
            rising_keys(keys@, self@.writes),
    {
        let mut keys: Vec<u64> = Vec::new();
        let mut index: usize = 0;
        while index < self.pending_writes.len()
            invariant
                self.well_formed(),
                index <= self.pending_writes.keys().len(),
                keys@ == self.pending_writes.keys().subrange(0, index as int),
            decreases self.pending_writes.keys().len() - index,
        {
            keys.push(self.pending_writes.key_at(index));
            index = index + 1;
            assert(keys@ =~= self.pending_writes.keys().subrange(0, index as int));
        }
        proof {
            self.pending_writes.lemma_keys();
            assert(keys@ =~= self.pending_writes.keys());
        }
        keys
    }

    /// Tells requests on a stream that they cannot be served.
    fn fail_stream_waiters(&mut self, stream_id: StreamId, error_code: u32)
        requires
            old(self).well_formed(),
        ensures
            final(self).well_formed(),
            final(self)@ == stream_failed(old(self)@, stream_id.value, error_code),
    {
        let ghost first = self@;
        match self.pending_reads.remove(stream_id.value) {
            Some(wait) => self.reply(
                wait.request,
                Reply::Read(Err(StreamError::ConnectionClosed { error_code })),
            ),
            None => {},
        }
        let ghost held = self.pending_writes@;
        match self.pending_writes.remove(stream_id.value) {
            Some(wait) => {
                assert(write_views(held)[stream_id.value].request == wait.request);
                self.reply(
                    wait.request,
                    Reply::Write(Err(StreamError::ConnectionClosed { error_code })),
                );
                assert(write_views(self.pending_writes@) =~= write_views(held).remove(
                    stream_id.value,
                ));
            },
            None => {},
        }
        assert(self@ =~= stream_failed(first, stream_id.value, error_code));
    }

    /// Tells everybody who waits that the connection is closed.
    fn fail_connection_waiters(&mut self, error_code: u32)
        requires
            old(self).well_formed(),
        ensures
            final(self).well_formed(),
            all_closed(old(self)@, error_code, final(self)@),
    {
        let ghost first = self@;
        let ghost reading = self.pending_reads.keys();
        let ghost writing = self.pending_writes.keys();
        let closed = Err::<(), StreamError>(StreamError::ConnectionClosed { error_code });
        proof {
            self.pending_reads.lemma_keys();
            self.pending_writes.lemma_keys();
            assert(rising_keys(reading, first.reads));
            assert(rising_keys(writing, first.writes));
        }
        self.fail_reads(error_code);
        let ghost one = self@.actions;
        assert(one == first.actions + reads_closed(first.reads, reading, error_code));
        self.fail_writes(error_code);
        let ghost two = self@.actions;
        assert(two == one + writes_closed(first.writes, writing, error_code));
        self.fail_accepts(error_code);
        let ghost three = self@.actions;
        assert(three == two + accepts_closed(first.accepts, error_code));
        match self.connect_waiter {
            Some(request) => {
                self.connect_waiter = None;
                self.reply(
                    request,
                    Reply::Connect(Err(ConnectError::ConnectionClosed { error_code })),
                );
            },
            None => {},
        }
        let ghost four = self@.actions;
        assert(four =~= three + connect_closed(first.connect_waiter, error_code));
        self.answer_flushes(Some(error_code));
        assert(self@.actions == four + flushes_answered(
            first.flushes,
            Err(StreamError::ConnectionClosed { error_code }),
        ));
        assert(self@.actions == first.actions + reads_closed(first.reads, reading, error_code)
            + writes_closed(first.writes, writing, error_code) + accepts_closed(
            first.accepts,
            error_code,
        ) + connect_closed(first.connect_waiter, error_code) + flushes_answered(
            first.flushes,
            Err(StreamError::ConnectionClosed { error_code }),
        ));
    }

    fn fail_reads(&mut self, error_code: u32)
        requires
            old(self).well_formed(),
        ensures
            final(self).well_formed(),
            final(self).pending_writes == old(self).pending_writes,
            final(self)@ == (RuntimeView {
                reads: Map::empty(),
                actions: old(self)@.actions + reads_closed(
                    old(self)@.reads,
                    old(self).pending_reads.keys(),
                    error_code,
                ),
                ..old(self)@
            }),
    {
        let ghost first = self@;
        let ghost keys = self.pending_reads.keys();
        let ghost closed = reads_closed(first.reads, keys, error_code);
        let mut index: usize = 0;
        assert(closed.subrange(0, 0) =~= Seq::empty());
        while index < self.pending_reads.len()
            invariant
                self.well_formed(),
                self.pending_reads == old(self).pending_reads,
                self.pending_writes == old(self).pending_writes,
                first == old(self)@,
                keys == self.pending_reads.keys(),
                index <= keys.len(),
                closed == reads_closed(first.reads, keys, error_code),
                self@ == (RuntimeView {
                    actions: first.actions + closed.subrange(0, index as int),
                    ..first
                }),
            decreases keys.len() - index,
        {
            let request: u64 = self.pending_reads.value_at(index).request;
            self.reply(request, Reply::Read(Err(StreamError::ConnectionClosed { error_code })));
            index = index + 1;
            assert(closed.subrange(0, index as int) =~= closed.subrange(0, index - 1).push(
                closed[index - 1],
            ));
            assert(self@.actions =~= first.actions + closed.subrange(0, index as int));
        }
        assert(closed.subrange(0, closed.len() as int) =~= closed);
        self.pending_reads = OrderedMap::new();
    }

    fn fail_writes(&mut self, error_code: u32)
        requires
            old(self).well_formed(),
        ensures
            final(self).well_formed(),
            final(self)@ == (RuntimeView {
                writes: Map::empty(),
                actions: old(self)@.actions + writes_closed(
                    old(self)@.writes,
                    old(self).pending_writes.keys(),
                    error_code,
                ),
                ..old(self)@
            }),
    {
        let ghost first = self@;
        let ghost keys = self.pending_writes.keys();
        let ghost closed = writes_closed(first.writes, keys, error_code);
        let mut index: usize = 0;
        assert(closed.subrange(0, 0) =~= Seq::empty());
        while index < self.pending_writes.len()
            invariant
                self.well_formed(),
                self.pending_writes == old(self).pending_writes,
                first == old(self)@,
                keys == self.pending_writes.keys(),
                index <= keys.len(),
                closed == writes_closed(first.writes, keys, error_code),
                self@ == (RuntimeView {
                    actions: first.actions + closed.subrange(0, index as int),
                    ..first
                }),
            decreases keys.len() - index,
        {
            let request: u64 = self.pending_writes.value_at(index).request;
            assert(first.writes[keys[index as int]].request == request);
            self.reply(request, Reply::Write(Err(StreamError::ConnectionClosed { error_code })));
            index = index + 1;
            assert(closed.subrange(0, index as int) =~= closed.subrange(0, index - 1).push(
                closed[index - 1],
            ));
            assert(self@.actions =~= first.actions + closed.subrange(0, index as int));
        }
        assert(closed.subrange(0, closed.len() as int) =~= closed);
        self.pending_writes = OrderedMap::new();
        assert(self@.writes =~= Map::empty());
    }

    fn fail_accepts(&mut self, error_code: u32)
        requires
            old(self).well_formed(),
        ensures
            final(self).well_formed(),
            final(self)@ == (RuntimeView {
                accepts: Seq::empty(),
                actions: old(self)@.actions + accepts_closed(old(self)@.accepts, error_code),
                ..old(self)@
            }),
    {
        let ghost first = self@;
        let ghost closed = accepts_closed(first.accepts, error_code);
        let ghost mut index: int = 0;
        assert(closed.subrange(0, 0) =~= Seq::empty());
        assert(first.accepts.subrange(0, first.accepts.len() as int) =~= first.accepts);
        loop
            invariant
                self.well_formed(),
                first == old(self)@,
                0 <= index <= first.accepts.len(),
                closed == accepts_closed(first.accepts, error_code),
                self@ == (RuntimeView {
                    accepts: first.accepts.subrange(index, first.accepts.len() as int),
                    actions: first.actions + closed.subrange(0, index),
                    ..first
                }),
            decreases first.accepts.len() - index,
        {
            match self.pending_accepts.pop_front() {
                None => {
                    assert(index == first.accepts.len());
                    assert(closed.subrange(0, closed.len() as int) =~= closed);
                    assert(self@.accepts =~= Seq::empty());
                    return;
                },
                Some(request) => {
                    self.reply(
                        request,
                        Reply::Stream(Err(StreamError::ConnectionClosed { error_code })),
                    );
                    proof {
                        index = index + 1;
                        assert(closed.subrange(0, index) =~= closed.subrange(0, index - 1).push(
                            closed[index - 1],
                        ));
                        assert(self@.actions =~= first.actions + closed.subrange(0, index));
                        assert(self@.accepts =~= first.accepts.subrange(
                            index,
                            first.accepts.len() as int,
                        ));
                    }
                },
            }
        }
    }

    /// Answers those who wait until all is acknowledged: that it is, or that the
    /// connection is closed.
    fn answer_flushes(&mut self, error_code: Option<u32>)
        requires
            old(self).well_formed(),
        ensures
            final(self).well_formed(),
            final(self)@ == (RuntimeView {
                flushes: Seq::empty(),
                actions: old(self)@.actions + flushes_answered(
                    old(self)@.flushes,
                    flush_result(error_code),
                ),
                ..old(self)@
            }),
    {
        let ghost first = self@;
        let ghost answers = flushes_answered(first.flushes, flush_result(error_code));
        let mut index: usize = 0;
        assert(answers.subrange(0, 0) =~= Seq::empty());
        while index < self.pending_flushes.len()
            invariant
                self.well_formed(),
                first == old(self)@,
                self.pending_flushes@ == first.flushes,
                index <= first.flushes.len(),
                answers == flushes_answered(first.flushes, flush_result(error_code)),
                self@ == (RuntimeView {
                    actions: first.actions + answers.subrange(0, index as int),
                    ..first
                }),
            decreases first.flushes.len() - index,
        {
            let request: u64 = self.pending_flushes[index];
            let result: Result<(), StreamError> = match error_code {
                Some(error_code) => Err(StreamError::ConnectionClosed { error_code }),
                None => Ok(()),
            };
            self.reply(request, Reply::Flush(result));
            index = index + 1;
            assert(answers.subrange(0, index as int) =~= answers.subrange(0, index - 1).push(
                answers[index - 1],
            ));
            assert(self@.actions =~= first.actions + answers.subrange(0, index as int));
        }
        assert(answers.subrange(0, answers.len() as int) =~= answers);
        self.pending_flushes = Vec::new();
    }

    /// Answers those who wait until all is acknowledged, once it is.
    fn service_flushes(&mut self)
        requires
            old(self).well_formed(),
        ensures
            final(self).well_formed(),
            final(self)@ == flushes_served(old(self)@),
    {
        if self.core.is_reliably_flushed() {
            self.answer_flushes(None);
        }
    }

    /// Gives the connection up.
    pub fn retire(&mut self, error_code: u32)
        requires
            old(self).well_formed(),
        ensures
            final(self).well_formed(),
            retired(old(self)@, error_code, final(self)@),
    {
        self.fail_connection_waiters(error_code);
        let ghost failed = self@;
        self.gone = true;
        assert((RuntimeView { gone: old(self)@.gone, ..self@ }) == failed);
    }

    /// Hands an established connection on.
    fn on_established(&mut self, slot_free: bool)
        requires
            old(self).well_formed(),
        ensures
            final(self).well_formed(),
            established(old(self)@, slot_free, final(self)@),
    {
        let connection_id = self.core.connection_id();
        if self.is_server && !self.accepted {
            if !slot_free {
                self.retire(0);
                return;
            }
            self.accepted = true;
            self.act(Action::Accept { connection_id });
        }
        match self.connect_waiter {
            Some(request) => {
                self.connect_waiter = None;
                self.reply(request, Reply::Connect(Ok(connection_id)));
            },
            None => {},
        }
    }

    /// Does what an output of the connection asks for.
    fn handle_output(&mut self, output: &CoreOutput, batch: usize, slot_free: bool) -> (result:
        Result<(), EndpointError>)
        requires
            old(self).well_formed(),
        ensures
            final(self).well_formed(),
            output_done(old(self)@, output@, batch, slot_free, final(self)@, result),
    {
        if self.gone {
            return match output {
                CoreOutput::Send(_) => Err(EndpointError::Closed),
                _ => Ok(()),
            };
        }
        match output {
            CoreOutput::Send(packet) => {
                return self.hand_packet(packet, batch);
            },
            CoreOutput::StreamOpened(stream_id) => self.on_stream_opened(*stream_id),
            CoreOutput::StreamReadable(stream_id) => self.service_read(*stream_id),
            CoreOutput::StreamFinished(stream_id) => self.service_read(*stream_id),
            CoreOutput::StreamReset { stream_id, error_code } => {
                self.fail_stream_waiters(*stream_id, *error_code);
            },
            CoreOutput::ConnectionStateChanged(state) => {
                if *state == ConnectionState::Established {
                    self.on_established(slot_free);
                }
            },
            CoreOutput::ConnectionClosed { error_code } => {
                self.fail_connection_waiters(*error_code);
            },
        }
        Ok(())
    }

    /// Lays a packet out and has it sent.
    fn hand_packet(&mut self, packet: &Packet, batch: usize) -> (result: Result<(), EndpointError>)
        requires
            old(self).well_formed(),
        ensures
            final(self).well_formed(),
            packet_handed(old(self)@, packet@, batch, final(self)@, result),
    {
        let ghost first = self@;
        let laid_out = self.core.encode_packet(packet, &self.wire);
        let ghost encoded = choose|encoded: Result<Vec<u8>, ProtocolError>| #[trigger]
            layout_written(first.core, packet, &first.wire, encoded) && laid_out == match encoded {
                Ok(bytes) => Ok::<Vec<u8>, CoreError>(bytes),
                Err(problem) => Err::<Vec<u8>, CoreError>(CoreError::Protocol(problem)),
            };
        let bytes: Vec<u8> = match laid_out {
            Ok(bytes) => bytes,
            Err(error) => {
                let failure = EndpointError::Core(error);
                assert(datagram_handed(first, batch, encoded, self@, Err(failure)));
                return Err(failure);
            },
        };
        let peer = self.peer;
        self.act(Action::Datagram { bytes, peer });
        if self.burst >= batch || batch - self.burst <= 1 {
            self.burst = 0;
            self.act(Action::Yield);
        } else {
            self.burst = self.burst + 1;
        }
        assert(datagram_handed(first, batch, encoded, self@, Ok(())));
        Ok(())
    }

    /// Does what the outputs of the connection ask for, one after the other.
    fn handle_outputs(
        &mut self,
        outputs: &Vec<CoreOutput>,
        batch: usize,
        slot_free: bool,
    ) -> (result:
        Result<(), EndpointError>)
        requires
            old(self).well_formed(),
        ensures
            final(self).well_formed(),
            outputs_done(
                old(self)@,
                output_views(outputs@),
                outputs@.len() as int,
                batch,
                slot_free,
                final(self)@,
                result,
            ),
            calmer(old(self)@, final(self)@),
            quiet(output_views(outputs@)) ==> final(self)@.core == old(self)@.core,
    {
        let ghost first = self@;
        let ghost views = output_views(outputs@);
        proof {
            self.lemma_finite();
            assert(outputs_done(first, views, 0, batch, slot_free, first, Ok(())));
        }
        let mut index: usize = 0;
        while index < outputs.len()
            invariant
                index <= outputs@.len(),
                views == output_views(outputs@),
                self.well_formed(),
                first == old(self)@,
                calmer(first, self@),
                quiet(views) ==> self@.core == first.core,
                outputs_done(first, views, index as int, batch, slot_free, self@, Ok(())),
            decreases outputs@.len() - index,
        {
            let ghost before = self@;
            proof {
                self.lemma_finite();
            }
            let outcome = self.handle_output(&outputs[index], batch, slot_free);
            proof {
                assert(views[index as int] == outputs@[index as int]@);
                let next = index + 1;
                assert(output_follows(
                    before,
                    Ok(()),
                    views[next - 1],
                    batch,
                    slot_free,
                    self@,
                    outcome,
                ));
                lemma_output_calms(before, views[index as int], batch, slot_free, self@, outcome);
                lemma_calmer_on(first, before, self@);
                assert(outputs_done(
                    first,
                    views,
                    next,
                    batch,
                    slot_free,
                    self@,
                    outcome,
                ));
            }
            match outcome {
                Ok(_) => {
                    assert(outcome->Ok_0 == ());
                },
                Err(error) => {
                    proof {
                        lemma_outputs_stop(
                            first,
                            views,
                            index + 1,
                            views.len() as int,
                            batch,
                            slot_free,
                            self@,
                            outcome,
                        );
                    }
                    return Err(error);
                },
            }
            index = index + 1;
        }
        Ok(())
    }

    /// Does what the connection asks for until it asks for nothing more.
    pub fn process_outputs(&mut self, batch: usize, slot_free: bool) -> (result: Result<
        (),
        EndpointError,
    >)
        requires
            old(self).well_formed(),
        ensures
            final(self).well_formed(),
            same_link(old(self)@, final(self)@),
            outputs_processed(old(self)@, batch, slot_free, final(self)@, result),
    {
        self.burst = 0;
        let ghost first = self@;
        let ghost mut count: nat = 0;
        proof {
            self.lemma_finite();
            assert(rounds_done(first, 0, batch, slot_free, first, Ok(())));
        }
        loop
            invariant
                self.well_formed(),
                first == (RuntimeView { burst: 0, ..old(self)@ }),
                same_link(old(self)@, self@),
                self@.writes.dom().finite(),
                self@.reads.dom().finite(),
                rounds_done(first, count, batch, slot_free, self@, Ok(())),
            decreases
                    self@.writes.dom().len(),
                    self@.reads.dom().len(),
                    noise(self@.core.output),
        {
            if self.gone {
                return Ok(());
            }
            let ghost before = self@;
            let outputs: Vec<CoreOutput> = self.core.drain_output();
            if outputs.len() == 0 {
                assert(self@ =~= before);
                let changed = self.service_pending_writes();
                proof {
                    self.lemma_finite();
                    assert(round_done(before, batch, slot_free, self@, Ok(())));
                    count = count + 1;
                    assert(rounds_done(first, count, batch, slot_free, self@, Ok(())));
                }
                if !changed {
                    let ghost last = self@;
                    self.service_flushes();
                    if self.core.state() == ConnectionState::Closed {
                        self.retire(0);
                    }
                    assert(settled(last, self@));
                    return Ok(());
                }
            } else {
                let ghost drained = self@;
                let outcome = self.handle_outputs(&outputs, batch, slot_free);
                proof {
                    self.lemma_finite();
                    assert(round_done(before, batch, slot_free, self@, outcome));
                    count = count + 1;
                    assert(rounds_done(first, count, batch, slot_free, self@, outcome));
                }
                match outcome {
                    Ok(_) => {
                        assert(outcome->Ok_0 == ());
                    },
                    Err(error) => {
                        return Err(error);
                    },
                }
            }
        }
    }
}

/// The answer to who waits until all is acknowledged.
pub open spec fn flush_result(error_code: Option<u32>) -> Result<(), StreamError> {
    match error_code {
        Some(error_code) => Err(StreamError::ConnectionClosed { error_code }),
        None => Ok(()),
    }
}

/// All outputs are packets to be sent.
spec fn quiet(outputs: Seq<OutputView>) -> bool {
    forall|i: int| 0 <= i < outputs.len() ==> (#[trigger] outputs[i]) is Send
}

/// How much outputs may lead to: nothing, packets, or more.
spec fn noise(outputs: Seq<OutputView>) -> nat {
    if outputs.len() == 0 {
        0
    } else if quiet(outputs) {
        1
    } else {
        2
    }
}

/// The connection is the same one, at the same time.
pub open spec fn same_link<W: Wire>(before: RuntimeView<W>, after: RuntimeView<W>) -> bool {
    &&& after.peer == before.peer
    &&& after.is_server == before.is_server
    &&& after.last_advanced_at == before.last_advanced_at
    &&& after.core.id == before.core.id
}

/// Fewer requests wait or, if as many do, nothing but packets was put out.
spec fn calmer<W: Wire>(before: RuntimeView<W>, after: RuntimeView<W>) -> bool {
    &&& same_link(before, after)
    &&& before.reads.dom().finite()
    &&& before.writes.dom().finite()
    &&& after.reads.dom().finite()
    &&& after.writes.dom().finite()
    &&& after.writes.dom().len() <= before.writes.dom().len()
    &&& after.reads.dom().len() <= before.reads.dom().len()
    &&& after.reads.dom().len() == before.reads.dom().len() && quiet(before.core.output) ==> quiet(
        after.core.output,
    )
}

proof fn lemma_calmer_on<W: Wire>(
    first: RuntimeView<W>,
    before: RuntimeView<W>,
    after: RuntimeView<W>,
)
    requires
        calmer(first, before),
        calmer(before, after),
    ensures
        calmer(first, after),
{
}

/// A write that is tried again is answered, or nothing changes.
proof fn lemma_write_served<W: Wire>(before: RuntimeView<W>, key: u64, after: RuntimeView<W>)
    requires
        before.writes.contains_key(key),
        before.writes.dom().finite(),
        write_served(before, key, after),
    ensures
        after.reads == before.reads,
        after.gone == before.gone,
        same_link(before, after),
        after.writes.dom().finite(),
        after.writes.contains_key(key) ==> after == before && write_refused(
            before.core,
            StreamId { value: key },
            before.writes[key].data.len(),
        ) == Some(CoreError::SendBufferFull),
        !after.writes.contains_key(key) ==> after.writes == before.writes.remove(key)
            && after.writes.dom().len() < before.writes.dom().len(),
{
    let removed = RuntimeView { writes: before.writes.remove(key), ..before };
    let wait = before.writes[key];
    let id = StreamId { value: key };
    let outcome = choose|outcome: Result<usize, CoreError>| #[trigger]
        write_done(&removed.wire, removed.core, id, wait.data, wait.fin, after.core, outcome) && after
            == write_replied(RuntimeView { core: after.core, ..removed }, id, wait, outcome);
    assert(before.writes.remove(key).insert(key, wait) =~= before.writes);
    if after.writes.contains_key(key) {
        assert(outcome == Err::<usize, CoreError>(CoreError::SendBufferFull));
        assert(after =~= before);
    }
}

/// A read that is tried again is answered, or nothing but packets is put out.
proof fn lemma_read_served<W: Wire>(
    before: RuntimeView<W>,
    stream_id: StreamId,
    after: RuntimeView<W>,
)
    requires
        before.reads.dom().finite(),
        before.writes.dom().finite(),
        read_served(before, stream_id, after),
    ensures
        calmer(before, after),
{
    let key = stream_id.value;
    if before.reads.contains_key(key) {
        let removed = RuntimeView { reads: before.reads.remove(key), ..before };
        let wait = before.reads[key];
        let outcome = choose|outcome: Result<(Seq<u8>, bool), CoreError>| #[trigger]
            read_done(&removed.wire, removed.core, stream_id, wait.max_len, after.core, outcome) && after
                == read_replied(
                RuntimeView { core: after.core, ..removed },
                stream_id,
                wait,
                outcome,
            );
        assert(before.reads.remove(key).insert(key, wait) =~= before.reads);
        if after.reads.contains_key(key) && quiet(before.core.output) {
            let stream = before.core.streams[key];
            let shorter = after_read(stream, wait.max_len);
            let read = stream.recv.ready.subrange(
                0,
                lesser(wait.max_len as int, stream.recv.ready.len() as int),
            );
            let taken = choose|taken: ConnectionView| #[trigger]
                stream_read(before.core, stream_id, shorter, read.len(), taken) && sent_on(
                    &before.wire,
                    taken,
                    after.core,
                    sending(outcome),
                );
            assert(!ended(shorter));
            assert(taken.output == before.core.output);
            assert forall|i: int| 0 <= i < after.core.output.len() implies (
            #[trigger] after.core.output[i]) is Send by {
                if i < taken.output.len() {
                    assert(after.core.output.subrange(0, taken.output.len() as int)[i]
                        == after.core.output[i]);
                }
            }
        }
    }
}

/// What an output leads to calms the connection down; a packet to be sent
/// changes nothing of it.
proof fn lemma_output_calms<W: Wire>(
    before: RuntimeView<W>,
    output: OutputView,
    batch: usize,
    slot_free: bool,
    after: RuntimeView<W>,
    result: Result<(), EndpointError>,
)
    requires
        before.reads.dom().finite(),
        before.writes.dom().finite(),
        output_done(before, output, batch, slot_free, after, result),
    ensures
        calmer(before, after),
        output is Send ==> after.core == before.core,
{
    if !before.gone {
        match output {
            OutputView::StreamReadable(stream_id) => {
                lemma_read_served(before, stream_id, after);
            },
            OutputView::StreamFinished(stream_id) => {
                lemma_read_served(before, stream_id, after);
            },
            OutputView::StreamReset { stream_id, .. } => {},
            _ => {},
        }
    }
}

/// An error among the outputs stops them.
proof fn lemma_outputs_stop<W: Wire>(
    before: RuntimeView<W>,
    outputs: Seq<OutputView>,
    count: int,
    end: int,
    batch: usize,
    slot_free: bool,
    after: RuntimeView<W>,
    result: Result<(), EndpointError>,
)
    requires
        0 <= count <= end,
        result is Err,
        outputs_done(before, outputs, count, batch, slot_free, after, result),
    ensures
        outputs_done(before, outputs, end, batch, slot_free, after, result),
    decreases end - count,
{
    if count < end {
        let next = count + 1;
        assert(output_follows(
            after,
            result,
            outputs[next - 1],
            batch,
            slot_free,
            after,
            result,
        ));
        assert(outputs_done(before, outputs, next, batch, slot_free, after, result));
        lemma_outputs_stop(
            before,
            outputs,
            count + 1,
            end,
            batch,
            slot_free,
            after,
            result,
        );
    }
}

} // verus!
