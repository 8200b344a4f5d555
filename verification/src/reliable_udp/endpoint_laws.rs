//! Where datagrams and requests go, and what comes of them.

use vstd::prelude::*;

use crate::bytes::{be_bytes, law_be_read_gives_what_was_written, lemma_be_limits};
use crate::duration::{Duration, MAX_NANOS};
use crate::laws::law_written_addresses_differ;
use crate::net::{address_bytes, SocketAddr};
use crate::reliable_core::config::{ConnectionConfig, ConnectionConfigError};
use crate::reliable_core::event::{ConnectionState, OutputView};
use crate::reliable_core::recovery::SentView;
use crate::reliable_udp::action::{ActionView, ReplyView};
use crate::reliable_udp::endpoint::EndpointConfig;
use crate::reliable_udp::error::{ConnectError, EndpointError, StreamError};
use crate::reliable_udp::event_loop::{
    admitted, connecting, delivered_to, hello_proven, unknown_taken, welcomed, with_runtime,
    Command, ConnectStep, EndpointView, EventLoop,
};
use crate::reliable_udp::retry::{
    cookie_label, cookie_message, issue_cookie, law_cookie_is_good_while_fresh,
    law_stale_cookie_is_refused, validate_cookie, CookieContext, RetryConfig, RetryError,
};
use crate::reliable_udp::runtime::{output_done, outputs_processed, Runtime, RuntimeView};
use crate::reliable_udp::stream::{FlushStep, ReadStep, ReliableStream, ShutdownStep, WriteStep};
use crate::wire::{
    ClientHelloView, ConnectionId, PacketType, PacketView, ProtocolError, StreamId, Wire,
};

verus! {

/// A datagram that is too large, or names no connection, is dropped.
pub proof fn law_unreadable_datagram_is_dropped<W: Wire>(
    endpoint: &mut EventLoop<W>,
    bytes: &[u8],
    peer: SocketAddr,
    unix: Option<u64>,
    slot_free: bool,
    fresh: W,
    result: Result<(), EndpointError>,
)
    requires
        old(endpoint).well_formed(),
        call_ensures(
            EventLoop::<W>::handle_datagram,
            (endpoint, bytes, peer, unix, slot_free, fresh),
            result,
        ),
        bytes@.len() > old(endpoint)@.config.connection.max_datagram_size || forall|
            peeked: Result<ConnectionId, ProtocolError>,
        | #[trigger]
            call_ensures(
                W::peek_connection_id,
                (&fresh, bytes, old(endpoint)@.config.connection.max_datagram_size),
                peeked,
            ) ==> peeked is Err,
    ensures
        result is Ok,
        final(endpoint)@ == old(endpoint)@,
{
}

/// A datagram reaches the connection it names and no other, and only from the
/// address that the connection is with. One that names none that is known makes
/// none but that one.
pub proof fn law_datagram_reaches_its_connection_alone<W: Wire>(
    endpoint: &mut EventLoop<W>,
    bytes: &[u8],
    peer: SocketAddr,
    unix: Option<u64>,
    slot_free: bool,
    fresh: W,
    result: Result<(), EndpointError>,
    id: ConnectionId,
    other: u64,
)
    requires
        old(endpoint).well_formed(),
        call_ensures(
            EventLoop::<W>::handle_datagram,
            (endpoint, bytes, peer, unix, slot_free, fresh),
            result,
        ),
        forall|peeked: Result<ConnectionId, ProtocolError>| #[trigger]
            call_ensures(
                W::peek_connection_id,
                (&fresh, bytes, old(endpoint)@.config.connection.max_datagram_size),
                peeked,
            ) ==> peeked == Ok::<ConnectionId, ProtocolError>(id),
        other != id.value,
    ensures
        final(endpoint)@.connections.contains_key(other) <==> old(
            endpoint,
        )@.connections.contains_key(other),
        old(endpoint)@.connections.contains_key(other) ==> final(endpoint)@.connections[other]
            == old(endpoint)@.connections[other],
        final(endpoint)@.config == old(endpoint)@.config,
        final(endpoint)@.clock == old(endpoint)@.clock,
        old(endpoint)@.connections.contains_key(id.value) && old(
            endpoint,
        )@.connections[id.value].peer != peer ==> result is Ok && final(endpoint)@
            == old(endpoint)@,
{
}

/// Where cookies are asked for and none can be checked, an opening makes no connection
/// and is not answered.
pub proof fn law_unchecked_opening_makes_no_connection<W: Wire>(
    endpoint: &mut EventLoop<W>,
    bytes: &[u8],
    peer: SocketAddr,
    unix: Option<u64>,
    slot_free: bool,
    fresh: W,
    result: Result<(), EndpointError>,
    id: ConnectionId,
)
    requires
        old(endpoint).well_formed(),
        call_ensures(
            EventLoop::<W>::handle_datagram,
            (endpoint, bytes, peer, unix, slot_free, fresh),
            result,
        ),
        forall|peeked: Result<ConnectionId, ProtocolError>| #[trigger]
            call_ensures(
                W::peek_connection_id,
                (&fresh, bytes, old(endpoint)@.config.connection.max_datagram_size),
                peeked,
            ) ==> peeked == Ok::<ConnectionId, ProtocolError>(id),
        !old(endpoint)@.connections.contains_key(id.value),
        old(endpoint)@.config.retry.enabled,
        old(endpoint)@.config.retry.cookie_secret is None || unix is None,
    ensures
        final(endpoint)@ == old(endpoint)@,
{
}

/// Only an opening makes a connection: the first packet of a client with its hello and
/// nothing else. Any other packet that names a connection which is not known is dropped.
pub proof fn law_only_an_opening_makes_a_connection<W: Wire>(
    before: EndpointView<W>,
    id: ConnectionId,
    packet: PacketView,
    bytes: &[u8],
    peer: SocketAddr,
    unix: Option<u64>,
    slot_free: bool,
    fresh: W,
    after: EndpointView<W>,
    result: Result<(), EndpointError>,
)
    requires
        unknown_taken(
            before,
            id,
            Ok::<PacketView, ProtocolError>(packet),
            bytes,
            peer,
            unix,
            slot_free,
            fresh,
            after,
            result,
        ),
    ensures
        after == before && result is Ok || {
            &&& packet.packet_type == PacketType::Initial
            &&& packet.frames.len() == 1
            &&& packet.frames[0] is ClientHello
        },
{
}

/// A connection that a client opens is with the address that its datagram came from,
/// and nobody has taken it yet.
pub proof fn law_admitted_connection_is_to_be_handed_out<W: Wire>(
    before: EndpointView<W>,
    id: ConnectionId,
    bytes: &[u8],
    peer: SocketAddr,
    slot_free: bool,
    fresh: W,
    after: EndpointView<W>,
    result: Result<(), EndpointError>,
)
    requires
        admitted(before, id, bytes, peer, slot_free, fresh, after, result),
    ensures
        after == before || exists|first: RuntimeView<W>| #[trigger]
            delivered_to(before, id.value, first, bytes, slot_free, after, result)
                && !first.accepted && first.is_server && first.connect_waiter is None
                && first.peer == peer && first.last_advanced_at == before.clock,
{
}

/// A connection that is made on request is with the address asked for, and the request
/// waits for it; if it cannot be made, the request is answered so.
pub proof fn law_request_waits_for_its_connection<W: Wire>(
    before: EndpointView<W>,
    peer: SocketAddr,
    request: u64,
    raw: u64,
    slot_free: bool,
    wire: W,
    after: EndpointView<W>,
    result: Result<bool, EndpointError>,
)
    requires
        connecting(before, peer, request, raw, slot_free, wire, after, result),
    ensures
        ({
            ||| {
                &&& after.connections == before.connections
                &&& after.actions.len() == before.actions.len() + 1
                &&& after.actions.last() is Reply
                &&& after.actions.last()->Reply_request == request
                &&& after.actions.last()->Reply_reply is Connect
                &&& after.actions.last()->Reply_reply->Connect_0 is Err
            }
            ||| exists|
                first: RuntimeView<W>,
                processed: RuntimeView<W>,
                outcome: Result<(), EndpointError>,
            | #[trigger]
                outputs_processed(
                    first,
                    before.config.max_send_batch,
                    slot_free,
                    processed,
                    outcome,
                ) && first.connect_waiter == Some(request) && first.peer == peer
                    && !first.is_server && after == with_runtime(before, raw, processed)
        }),
{
}

/// With retries, an opening whose cookie is not good makes no connection. It is
/// answered at most with one datagram, to the sender, no longer than what came.
pub proof fn law_retry_is_no_longer_than_its_cause<W: Wire>(
    before: EndpointView<W>,
    id: ConnectionId,
    hello: ClientHelloView,
    bytes: &[u8],
    peer: SocketAddr,
    unix: Option<u64>,
    slot_free: bool,
    fresh: W,
    after: EndpointView<W>,
    result: Result<(), EndpointError>,
)
    requires
        welcomed(
            before,
            id,
            hello,
            bytes,
            peer,
            unix,
            slot_free,
            fresh,
            after,
            result,
        ),
        before.config.retry.enabled,
        !hello_proven(before, peer, id, hello.cookie, hello.client_nonce, unix),
    ensures
        after.connections == before.connections,
        before.actions.len() <= after.actions.len() <= before.actions.len() + 1,
        after.actions.subrange(0, before.actions.len() as int) == before.actions,
        after.actions.len() == before.actions.len() + 1 ==> {
            &&& after.actions.last() is Datagram
            &&& after.actions.last()->Datagram_peer == peer
            &&& after.actions.last()->Datagram_bytes.len() <= bytes@.len()
        },
{
    assert(after.actions.subrange(0, before.actions.len() as int) =~= before.actions);
}

/// There are never more connections than allowed on account of a datagram: at the
/// limit no opening makes one.
pub proof fn law_connections_are_limited<W: Wire>(
    before: EndpointView<W>,
    id: ConnectionId,
    hello: ClientHelloView,
    bytes: &[u8],
    peer: SocketAddr,
    unix: Option<u64>,
    slot_free: bool,
    fresh: W,
    after: EndpointView<W>,
    result: Result<(), EndpointError>,
)
    requires
        welcomed(
            before,
            id,
            hello,
            bytes,
            peer,
            unix,
            slot_free,
            fresh,
            after,
            result,
        ),
        before.connections.dom().len() >= before.config.max_connections,
    ensures
        after.connections == before.connections,
{
}

/// A request to connect is refused at the limit. Else it goes on with the number
/// that was drawn, unless that is nothing or taken: the number is then drawn again.
/// A connection that is made has that number and is with the address asked for.
pub proof fn law_connection_is_made_with_the_address<W: Wire>(
    endpoint: &mut EventLoop<W>,
    peer: SocketAddr,
    request: u64,
    drawn: Option<u64>,
    slot_free: bool,
    wire: W,
    result: Result<ConnectStep<W>, EndpointError>,
    other: u64,
)
    requires
        old(endpoint).well_formed(),
        call_ensures(
            EventLoop::<W>::connect_as,
            (endpoint, peer, request, drawn, slot_free, wire),
            result,
        ),
    ensures
        ({
            let before = old(endpoint)@;
            let after = final(endpoint)@;
            let full = before.connections.dom().len() >= before.config.max_connections;
            &&& full ==> {
                &&& after.connections == before.connections
                &&& after.actions == before.actions.push(
                    ActionView::Reply {
                        request,
                        reply: ReplyView::Connect(
                            Err(ConnectError::Endpoint(EndpointError::ConnectionLimit)),
                        ),
                    },
                )
            }
            &&& !full && drawn is Some && (drawn->0 == 0 || before.connections.contains_key(
                drawn->0,
            )) ==> result is Ok && result->Ok_0 is Again && after == before
            &&& result is Ok && result->Ok_0 is Again ==> after == before
            &&& !(drawn is Some && other == drawn->0) ==> {
                &&& after.connections.contains_key(other) <==> before.connections.contains_key(
                    other,
                )
                &&& before.connections.contains_key(other) ==> after.connections[other]
                    == before.connections[other]
            }
        }),
{
}

/// A request for a connection that is not there is answered at once, in the way of
/// the request, that the connection is closed.
pub proof fn law_request_without_connection_is_answered<W: Wire>(
    endpoint: &mut EventLoop<W>,
    command: Command,
    request: u64,
    slot_free: bool,
    result: Result<(), EndpointError>,
    id: ConnectionId,
)
    requires
        old(endpoint).well_formed(),
        call_ensures(
            EventLoop::<W>::handle_command,
            (endpoint, command, request, slot_free),
            result,
        ),
        match command {
            Command::OpenStream { connection_id } => connection_id == id,
            Command::AcceptStream { connection_id } => connection_id == id,
            Command::Read { connection_id, .. } => connection_id == id,
            Command::Write { connection_id, .. } => connection_id == id,
            Command::Flush { connection_id } => connection_id == id,
            Command::Close { connection_id, .. } => connection_id == id,
        },
        !old(endpoint)@.connections.contains_key(id.value),
    ensures
        result is Ok,
        final(endpoint)@.connections == old(endpoint)@.connections,
        final(endpoint)@.actions.len() == old(endpoint)@.actions.len() + 1,
        final(endpoint)@.actions.last() is Reply,
        final(endpoint)@.actions.last()->Reply_request == request,
        ({
            let reply = final(endpoint)@.actions.last()->Reply_reply;
            match command {
                Command::OpenStream { .. } => reply is Stream && reply->Stream_0 is Err,
                Command::AcceptStream { .. } => reply is Stream && reply->Stream_0 is Err,
                Command::Read { .. } => reply is Read && reply->Read_0 is Err,
                Command::Write { .. } => reply is Write && reply->Write_0 is Err,
                Command::Flush { .. } => reply is Flush && reply->Flush_0 is Err,
                Command::Close { .. } => reply is Close && reply->Close_0 is Err,
            }
        }),
{
}

/// A request touches no connection but the one it is for.
pub proof fn law_request_touches_its_connection_alone<W: Wire>(
    endpoint: &mut EventLoop<W>,
    command: Command,
    request: u64,
    slot_free: bool,
    result: Result<(), EndpointError>,
    id: ConnectionId,
    other: u64,
)
    requires
        old(endpoint).well_formed(),
        call_ensures(
            EventLoop::<W>::handle_command,
            (endpoint, command, request, slot_free),
            result,
        ),
        match command {
            Command::OpenStream { connection_id } => connection_id == id,
            Command::AcceptStream { connection_id } => connection_id == id,
            Command::Read { connection_id, .. } => connection_id == id,
            Command::Write { connection_id, .. } => connection_id == id,
            Command::Flush { connection_id } => connection_id == id,
            Command::Close { connection_id, .. } => connection_id == id,
        },
        other != id.value,
    ensures
        final(endpoint)@.connections.contains_key(other) <==> old(
            endpoint,
        )@.connections.contains_key(other),
        old(endpoint)@.connections.contains_key(other) ==> final(endpoint)@.connections[other]
            == old(endpoint)@.connections[other],
{
}

/// Streams that the other side opens are given out in their order: to the request
/// that waits longest, else to the next one that comes.
pub proof fn law_opened_streams_are_given_out_in_order<W: Wire>(
    runtime: &mut Runtime<W>,
    request: u64,
)
    requires
        old(runtime).well_formed(),
        call_ensures(Runtime::<W>::accept_stream, (runtime, request), ()),
    ensures
        old(runtime)@.incoming.len() > 0 ==> {
            &&& final(runtime)@.actions == old(runtime)@.actions.push(
                ActionView::Reply {
                    request,
                    reply: ReplyView::Stream(Ok(old(runtime)@.incoming[0])),
                },
            )
            &&& final(runtime)@.incoming == old(runtime)@.incoming.drop_first()
            &&& final(runtime)@.accepts == old(runtime)@.accepts
        },
        old(runtime)@.incoming.len() == 0 ==> {
            &&& final(runtime)@.actions == old(runtime)@.actions
            &&& final(runtime)@.accepts == old(runtime)@.accepts.push(request)
            &&& final(runtime)@.incoming.len() == 0
        },
        final(runtime)@.core == old(runtime)@.core,
{
    if old(runtime)@.incoming.len() > 0 {
        assert(final(runtime)@.incoming =~= old(runtime)@.incoming.drop_first());
    }
}

/// A stream that the other side opened goes to the request that waits longest, or
/// waits itself, behind those that came before it.
pub proof fn law_waiting_requests_get_streams_first<W: Wire>(
    before: RuntimeView<W>,
    stream_id: StreamId,
    batch: usize,
    slot_free: bool,
    after: RuntimeView<W>,
    result: Result<(), EndpointError>,
)
    requires
        !before.gone,
        output_done(
            before,
            OutputView::StreamOpened(stream_id),
            batch,
            slot_free,
            after,
            result,
        ),
    ensures
        result is Ok,
        before.accepts.len() > 0 ==> {
            &&& after.actions == before.actions.push(
                ActionView::Reply {
                    request: before.accepts[0],
                    reply: ReplyView::Stream(Ok(stream_id)),
                },
            )
            &&& after.accepts == before.accepts.drop_first()
            &&& after.incoming == before.incoming
        },
        before.accepts.len() == 0 ==> after.incoming == before.incoming.push(stream_id)
            && after.actions == before.actions,
        after.core == before.core,
{
    if before.accepts.len() > 0 {
        assert(after.accepts =~= before.accepts.drop_first());
    }
}

/// Whoever waits for a connection is told its number once it is established. A
/// server hands it out once, if there is room; else it is given up.
pub proof fn law_established_connection_is_handed_out<W: Wire>(
    before: RuntimeView<W>,
    batch: usize,
    slot_free: bool,
    after: RuntimeView<W>,
    result: Result<(), EndpointError>,
)
    requires
        !before.gone,
        output_done(
            before,
            OutputView::ConnectionStateChanged(ConnectionState::Established),
            batch,
            slot_free,
            after,
            result,
        ),
    ensures
        result is Ok,
        ({
            let offers = before.is_server && !before.accepted;
            &&& offers && !slot_free ==> after.gone
            &&& !(offers && !slot_free) ==> {
                &&& !after.gone
                &&& after.connect_waiter is None
                &&& after.core == before.core
                &&& offers ==> after.accepted && after.actions.len() > before.actions.len()
                    && after.actions[before.actions.len() as int] == (ActionView::Accept {
                    connection_id: before.core.id,
                })
                &&& !offers && before.connect_waiter is None ==> after.actions == before.actions
                &&& before.connect_waiter is Some ==> after.actions.len() > 0
                    && after.actions.last() == (ActionView::Reply {
                    request: before.connect_waiter->0,
                    reply: ReplyView::Connect(Ok(before.core.id)),
                })
            }
        }),
{
}

/// Whoever reads or writes a stream that the other side resets is told its error,
/// and nobody else is.
pub proof fn law_reset_stream_fails_its_own_requests<W: Wire>(
    before: RuntimeView<W>,
    stream_id: StreamId,
    error_code: u32,
    batch: usize,
    slot_free: bool,
    after: RuntimeView<W>,
    result: Result<(), EndpointError>,
)
    requires
        !before.gone,
        output_done(
            before,
            (OutputView::StreamReset { stream_id, error_code }),
            batch,
            slot_free,
            after,
            result,
        ),
    ensures
        result is Ok,
        !after.reads.contains_key(stream_id.value),
        !after.writes.contains_key(stream_id.value),
        forall|other: u64|
            other != stream_id.value ==> {
                &&& after.reads.contains_key(other) == #[trigger] before.reads.contains_key(other)
                &&& before.reads.contains_key(other) ==> after.reads[other] == before.reads[other]
            },
        before.reads.contains_key(stream_id.value) ==> after.actions.contains(
            ActionView::Reply {
                request: before.reads[stream_id.value].request,
                reply: ReplyView::Read(Err(StreamError::ConnectionClosed { error_code })),
            },
        ),
        before.writes.contains_key(stream_id.value) ==> after.actions.contains(
            ActionView::Reply {
                request: before.writes[stream_id.value].request,
                reply: ReplyView::Write(Err(StreamError::ConnectionClosed { error_code })),
            },
        ),
        after.actions.len() <= before.actions.len() + 2,
        after.flushes == before.flushes,
        after.accepts == before.accepts,
{
    let key = stream_id.value;
    let closed = StreamError::ConnectionClosed { error_code };
    if before.reads.contains_key(key) {
        assert(after.actions[before.actions.len() as int] == (ActionView::Reply {
            request: before.reads[key].request,
            reply: ReplyView::Read(Err(closed)),
        }));
    }
    if before.writes.contains_key(key) {
        assert(after.actions[after.actions.len() - 1] == (ActionView::Reply {
            request: before.writes[key].request,
            reply: ReplyView::Write(Err(closed)),
        }));
    }
}

/// A packet that leaves goes as one datagram to the other side of the connection.
/// After so many in a row others get their turn.
pub proof fn law_packets_go_to_the_other_side<W: Wire>(
    before: RuntimeView<W>,
    packet: PacketView,
    batch: usize,
    slot_free: bool,
    after: RuntimeView<W>,
    result: Result<(), EndpointError>,
)
    requires
        !before.gone,
        output_done(before, OutputView::Send(packet), batch, slot_free, after, result),
    ensures
        result is Err ==> after == before,
        result is Ok ==> {
            let start = before.actions.len() as int;
            &&& after.actions.len() > start
            &&& after.actions[start] is Datagram
            &&& after.actions[start]->Datagram_peer == before.peer
            &&& before.burst + 1 < batch ==> after.actions.len() == start + 1 && after.burst
                == before.burst + 1
            &&& before.burst + 1 >= batch ==> after.actions.len() == start + 2
                && after.actions[start + 1] is Yield && after.burst == 0
        },
        after.core == before.core,
        after.reads == before.reads,
        after.writes == before.writes,
{
}

/// A flush is answered at once if all was acknowledged, and else waits.
pub proof fn law_flush_waits_for_acknowledgements<W: Wire>(
    runtime: &mut Runtime<W>,
    request: u64,
)
    requires
        old(runtime).well_formed(),
        call_ensures(Runtime::<W>::flush, (runtime, request), ()),
    ensures
        ({
            let core = old(runtime)@.core;
            let done = core.transport.pending.len() == 0 && (forall|number: u64|
                !(#[trigger] core.transport.sent.contains_key(number))) && forall|id: u64|
                #[trigger]
                core.streams.contains_key(id) ==> core.streams[id].send.queue.len() == 0;
            &&& done ==> final(runtime)@.actions == old(runtime)@.actions.push(
                ActionView::Reply { request, reply: ReplyView::Flush(Ok(())) },
            ) && final(runtime)@.flushes == old(runtime)@.flushes
            &&& !done ==> final(runtime)@.flushes == old(runtime)@.flushes.push(request)
                && final(runtime)@.actions == old(runtime)@.actions
        }),
        final(runtime)@.core == old(runtime)@.core,
{
    let core = old(runtime)@.core;
    if forall|number: u64| !(#[trigger] core.transport.sent.contains_key(number)) {
        assert(core.transport.sent =~= Map::<u64, SentView>::empty());
    }
}

/// The clock of an endpoint never goes back.
pub proof fn law_clock_never_goes_back<W: Wire>(endpoint: &mut EventLoop<W>, now: Duration)
    requires
        old(endpoint).well_formed(),
        now@ * 8 <= MAX_NANOS,
        call_ensures(EventLoop::<W>::observe, (endpoint, now), ()),
    ensures
        final(endpoint)@.clock@ >= old(endpoint)@.clock@,
        final(endpoint)@.clock@ >= now@,
        final(endpoint)@.clock@ == now@ || final(endpoint)@.clock@ == old(endpoint)@.clock@,
        final(endpoint)@.connections == old(endpoint)@.connections,
        final(endpoint)@.actions == old(endpoint)@.actions,
{
}

/// A read asks for as much as there is room for, once at a time. After the end was
/// read it asks for nothing.
pub proof fn law_read_asks_until_the_end(
    first: &mut ReliableStream,
    remaining: usize,
    step: ReadStep,
    answered: &mut ReliableStream,
    eof: Option<bool>,
    second: &mut ReliableStream,
    more: usize,
    next: ReadStep,
)
    requires
        remaining > 0,
        more > 0,
        call_ensures(ReliableStream::poll_read, (first, remaining), step),
        *old(answered) == *final(first),
        call_ensures(ReliableStream::read_answered, (answered, eof), ()),
        *old(second) == *final(answered),
        call_ensures(ReliableStream::poll_read, (second, more), next),
    ensures
        !old(first).read_eof && !old(first).reading ==> step == (ReadStep::Start {
            max_len: remaining,
        }),
        old(first).reading && !old(first).read_eof ==> step == ReadStep::Wait,
        old(first).read_eof || eof == Some(true) ==> next == ReadStep::Ready,
        !old(first).read_eof && eof != Some(true) ==> next == (ReadStep::Start { max_len: more }),
{
}

/// A write offers some of the bytes and no more than may be written at once, once at
/// a time. After the stream was ended, it fails.
pub proof fn law_write_offers_until_the_end(
    stream: &mut ReliableStream,
    length: usize,
    max_write_size: usize,
    step: WriteStep,
    ending: &mut ReliableStream,
    end: ShutdownStep,
    later: &mut ReliableStream,
    after: WriteStep,
)
    requires
        length > 0,
        max_write_size > 0,
        call_ensures(ReliableStream::poll_write, (stream, length, max_write_size), step),
        *old(ending) == *old(stream),
        call_ensures(ReliableStream::poll_shutdown, (ending,), end),
        *old(later) == *final(ending),
        call_ensures(ReliableStream::poll_write, (later, length, max_write_size), after),
    ensures
        old(stream).write_closed || old(stream).shutdown_requested ==> step == WriteStep::Broken,
        step is Start ==> {
            &&& 0 < step->Start_amount <= length
            &&& step->Start_amount <= max_write_size
            &&& step->Start_amount == length || step->Start_amount == max_write_size
            &&& final(stream).writing
        },
        old(stream).writing && !old(stream).write_closed && !old(stream).shutdown_requested ==> step
            == WriteStep::Wait,
        end == ShutdownStep::Start || end == ShutdownStep::Done ==> after == WriteStep::Broken,
        end == ShutdownStep::Start <==> !old(stream).write_closed && !old(stream).writing,
{
}

/// A flush waits for the write before it, and asks once at a time.
pub proof fn law_flush_comes_after_the_write(
    stream: &mut ReliableStream,
    step: FlushStep,
    again: &mut ReliableStream,
    second: FlushStep,
)
    requires
        call_ensures(ReliableStream::poll_flush, (stream,), step),
        *old(again) == *final(stream),
        call_ensures(ReliableStream::poll_flush, (again,), second),
    ensures
        step == FlushStep::AwaitWrite <==> old(stream).writing,
        step == FlushStep::Start ==> second == FlushStep::Wait,
        !old(stream).writing && !old(stream).flushing ==> step == FlushStep::Start,
{
}

/// The end of a stream is written once: when its write was answered well, the stream
/// is closed for writing and there is nothing more to do.
pub proof fn law_stream_is_ended_once(
    ending: &mut ReliableStream,
    step: ShutdownStep,
    answered: &mut ReliableStream,
    well: bool,
    again: &mut ReliableStream,
    next: ShutdownStep,
)
    requires
        call_ensures(ReliableStream::poll_shutdown, (ending,), step),
        step == ShutdownStep::Start,
        *old(answered) == *final(ending),
        call_ensures(ReliableStream::write_answered, (answered, well), ()),
        *old(again) == *final(answered),
        call_ensures(ReliableStream::poll_shutdown, (again,), next),
    ensures
        well ==> next == ShutdownStep::Done,
        !well ==> next == ShutdownStep::Start,
        final(ending).writing,
        !final(answered).writing,
{
}

/// A configuration for retries is good if it is off, or its times fit and its secret
/// is not all zero. A secret that was given is kept.
pub proof fn law_retry_needs_a_secret(
    config: &mut RetryConfig,
    drawn: Option<[u8; 32]>,
    result: Result<(), RetryError>,
)
    requires
        call_ensures(RetryConfig::settle, (config, drawn), result),
    ensures
        !old(config).enabled ==> result is Ok && *final(config) == *old(config),
        old(config).enabled && result is Ok ==> {
            &&& final(config).cookie_secret is Some
            &&& exists|i: int| 0 <= i < 32 && #[trigger] final(config).cookie_secret->0@[i] != 0
            &&& final(config).cookie_ttl@ >= 1_000_000_000
            &&& final(config).clock_skew@ <= final(config).cookie_ttl@
        },
        result is Ok && old(config).cookie_secret is Some ==> final(config).cookie_secret == old(
            config,
        ).cookie_secret,
        old(config).enabled && result is Ok && old(config).cookie_secret is None
            ==> final(config).cookie_secret == drawn,
{
}

/// Settings of an endpoint that pass leave room for requests, for new connections and
/// for packets; they are kept as they were. Without retries, such settings pass if
/// those of its connections do.
pub proof fn law_usable_endpoint_settings_are_taken(
    config: &mut EndpointConfig,
    result: Result<(), EndpointError>,
    checked: Result<(), ConnectionConfigError>,
)
    requires
        call_ensures(EndpointConfig::validate, (config,), result),
        call_ensures(ConnectionConfig::validate, (&old(config).connection,), checked),
    ensures
        result is Ok ==> {
            &&& old(config).command_capacity > 0
            &&& old(config).accept_capacity > 0
            &&& old(config).max_connections > 0
            &&& old(config).max_send_batch > 0
            &&& checked is Ok
        },
        checked is Ok && !old(config).retry.enabled && old(config).command_capacity > 0 && old(
            config,
        ).accept_capacity > 0 && old(config).max_connections > 0 && old(config).max_send_batch > 0
            ==> result is Ok && *final(config) == *old(config),
        final(config).connection == old(config).connection,
        final(config).bind_addr == old(config).bind_addr,
        final(config).command_capacity == old(config).command_capacity,
        final(config).max_connections == old(config).max_connections,
        old(config).retry.cookie_secret is Some ==> final(config).retry == old(config).retry,
{
}

/// A cookie is good for the one it was issued to while it is fresh.
pub proof fn law_issued_cookie_is_good<'a>(
    secret: &[u8; 32],
    peer: SocketAddr,
    connection_id: ConnectionId,
    client_nonce: &'a [u8; 16],
    made_at: u64,
    cookie: Vec<u8>,
    now: u64,
    cookie_ttl: Duration,
    clock_skew: Duration,
    good: bool,
    bytes: &[u8],
)
    requires
        call_ensures(
            issue_cookie,
            (secret, peer, connection_id, client_nonce, Some(made_at)),
            Ok::<Vec<u8>, RetryError>(cookie),
        ),
        bytes@ == cookie@,
        call_ensures(
            validate_cookie,
            (
                secret,
                bytes,
                Some(now),
                CookieContext { peer, connection_id, client_nonce, cookie_ttl, clock_skew },
            ),
            good,
        ),
    ensures
        made_at <= now && now <= made_at + cookie_ttl@ / 1_000_000_000 ==> good,
        made_at > now + clock_skew@ / 1_000_000_000 ==> !good,
        now > made_at + cookie_ttl@ / 1_000_000_000 + clock_skew@ / 1_000_000_000 ==> !good,
{
    let ttl = cookie_ttl@ / 1_000_000_000;
    let skew = clock_skew@ / 1_000_000_000;
    let text = cookie@;
    lemma_be_limits();
    law_be_read_gives_what_was_written(made_at as nat, 8);
    assert(text.subrange(1, 9) =~= be_bytes(made_at as nat, 8));
    if made_at <= now && now <= made_at + ttl {
        law_cookie_is_good_while_fresh(
            secret@,
            peer,
            connection_id,
            client_nonce@,
            made_at,
            now,
            ttl,
            skew,
        );
    } else if made_at > now + skew || now > made_at + ttl + skew {
        law_stale_cookie_is_refused(
            secret@,
            text,
            now,
            peer,
            connection_id,
            client_nonce@,
            ttl,
            skew,
        );
    }
}

/// What a cookie is signed for tells apart who it is for and when it was made: the
/// same is signed for two of them only if address, connection, nonce and time are
/// the same.
pub proof fn law_cookie_is_bound_to_its_client(
    peer: SocketAddr,
    connection_id: ConnectionId,
    nonce: Seq<u8>,
    made_at: u64,
    other_peer: SocketAddr,
    other_id: ConnectionId,
    other_nonce: Seq<u8>,
    other_made_at: u64,
)
    requires
        nonce.len() == 16,
        other_nonce.len() == 16,
        cookie_message(peer, connection_id, nonce, made_at) == cookie_message(
            other_peer,
            other_id,
            other_nonce,
            other_made_at,
        ),
    ensures
        peer == other_peer,
        connection_id == other_id,
        nonce == other_nonce,
        made_at == other_made_at,
{
    let message = cookie_message(peer, connection_id, nonce, made_at);
    let label = cookie_label().len() as int;
    let id = be_bytes(connection_id.value as nat, 8);
    let its_id = be_bytes(other_id.value as nat, 8);
    let time = be_bytes(made_at as nat, 8);
    let its_time = be_bytes(other_made_at as nat, 8);
    let behind = id + nonce + time;
    let its_behind = its_id + other_nonce + its_time;
    lemma_be_limits();
    law_be_read_gives_what_was_written(connection_id.value as nat, 8);
    law_be_read_gives_what_was_written(other_id.value as nat, 8);
    law_be_read_gives_what_was_written(made_at as nat, 8);
    law_be_read_gives_what_was_written(other_made_at as nat, 8);
    assert(message.subrange(label, message.len() as int) =~= address_bytes(peer) + behind);
    assert(message.subrange(label, message.len() as int) =~= address_bytes(other_peer)
        + its_behind);
    law_written_addresses_differ(peer, other_peer, behind, its_behind);
    assert(behind.subrange(0, 8) =~= id);
    assert(its_behind.subrange(0, 8) =~= its_id);
    assert(behind.subrange(8, 24) =~= nonce);
    assert(its_behind.subrange(8, 24) =~= other_nonce);
    assert(behind.subrange(24, 32) =~= time);
    assert(its_behind.subrange(24, 32) =~= its_time);
}

} // verus!
