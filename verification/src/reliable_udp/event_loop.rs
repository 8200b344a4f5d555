//! The connections of an endpoint: where datagrams, requests and time go.

use vstd::prelude::*;

use crate::bytes::read_be;
use crate::duration::{Duration, MAX_NANOS};
use crate::net::SocketAddr;
use crate::ordered_map::OrderedMap;
use crate::random::random_bytes;
use crate::reliable_core::config::connection_config_error;
use crate::reliable_core::connection::{spec_made, Connection};
use crate::reliable_core::handshake::HandshakeView;
use crate::reliable_core::transition::{
    all_acknowledged, client_started, close_done, fresh_handshake, open_done, packet_view,
    start_refused, started, ConnectionView,
};
use crate::reliable_core::{greater, lesser, ConnectionConfig, ConnectionRole, CoreError};
use crate::reliable_udp::action::{
    action_views, lemma_action_pushed, Action, ActionView, Reply, ReplyView,
};
use crate::reliable_udp::endpoint::EndpointConfig;
use crate::reliable_udp::error::{ConnectError, EndpointError, StreamError};
use crate::reliable_udp::retry::{
    cookie_for, cookie_good, issue_cookie, validate_cookie, CookieContext,
};
use crate::reliable_udp::runtime::{
    advanced, closing_reply, opening_reply, outputs_processed, read_asked, received, replying,
    retired, time_left, too_far, write_asked, PendingRead, Runtime, RuntimeView, WriteView,
};
use crate::time_wheel::TimerError;
use crate::wire::{
    ClientHello, ClientHelloView, ConnectionId, Frame, FrameView, Packet, PacketFlags, PacketNumber,
    PacketType, PacketView, ProtocolError, Retry, StreamId, Wire,
};

verus! {

/// A request to an endpoint.
#[allow(inconsistent_fields)]
#[derive(Debug)]
pub enum Command {
    OpenStream { connection_id: ConnectionId },
    AcceptStream { connection_id: ConnectionId },
    Read { connection_id: ConnectionId, stream_id: StreamId, max_len: usize },
    Write { connection_id: ConnectionId, stream_id: StreamId, data: Vec<u8>, fin: bool },
    Flush { connection_id: ConnectionId },
    Close { connection_id: ConnectionId, error_code: u32, reason: String },
}

/// A [`Command`], as contracts see it.
#[allow(inconsistent_fields)]
pub enum CommandView {
    OpenStream { connection_id: ConnectionId },
    AcceptStream { connection_id: ConnectionId },
    Read { connection_id: ConnectionId, stream_id: StreamId, max_len: usize },
    Write { connection_id: ConnectionId, stream_id: StreamId, data: Seq<u8>, fin: bool },
    Flush { connection_id: ConnectionId },
    Close { connection_id: ConnectionId, error_code: u32, reason: Seq<char> },
}

impl View for Command {
    type V = CommandView;

    open spec fn view(&self) -> CommandView {
        match self {
            Command::OpenStream { connection_id } => CommandView::OpenStream {
                connection_id: *connection_id,
            },
            Command::AcceptStream { connection_id } => CommandView::AcceptStream {
                connection_id: *connection_id,
            },
            Command::Read { connection_id, stream_id, max_len } => CommandView::Read {
                connection_id: *connection_id,
                stream_id: *stream_id,
                max_len: *max_len,
            },
            Command::Write { connection_id, stream_id, data, fin } => CommandView::Write {
                connection_id: *connection_id,
                stream_id: *stream_id,
                data: data@,
                fin: *fin,
            },
            Command::Flush { connection_id } => CommandView::Flush {
                connection_id: *connection_id,
            },
            Command::Close { connection_id, error_code, reason } => CommandView::Close {
                connection_id: *connection_id,
                error_code: *error_code,
                reason: reason@,
            },
        }
    }
}

/// The connection that a request is for.
pub open spec fn target(command: CommandView) -> ConnectionId {
    match command {
        CommandView::OpenStream { connection_id } => connection_id,
        CommandView::AcceptStream { connection_id } => connection_id,
        CommandView::Read { connection_id, .. } => connection_id,
        CommandView::Write { connection_id, .. } => connection_id,
        CommandView::Flush { connection_id } => connection_id,
        CommandView::Close { connection_id, .. } => connection_id,
    }
}

/// The answer to a request for a connection that is not there.
pub open spec fn no_connection(command: CommandView) -> ReplyView {
    let closed = StreamError::ConnectionClosed { error_code: 0 };
    match command {
        CommandView::OpenStream { .. } => ReplyView::Stream(Err(closed)),
        CommandView::AcceptStream { .. } => ReplyView::Stream(Err(closed)),
        CommandView::Read { .. } => ReplyView::Read(Err(closed)),
        CommandView::Write { .. } => ReplyView::Write(Err(closed)),
        CommandView::Flush { .. } => ReplyView::Flush(Err(closed)),
        CommandView::Close { .. } => ReplyView::Close(
            Err(ConnectError::ConnectionClosed { error_code: 0 }),
        ),
    }
}

/// What a request does to the connection that it is for.
pub open spec fn requested<W: Wire>(
    before: RuntimeView<W>,
    command: CommandView,
    request: u64,
    after: RuntimeView<W>,
) -> bool {
    match command {
        CommandView::OpenStream { .. } => exists|outcome: Result<StreamId, CoreError>| #[trigger]
            open_done(&before.wire, before.core, after.core, outcome) && after == replying(
                RuntimeView { core: after.core, ..before },
                request,
                opening_reply(outcome),
            ),
        CommandView::AcceptStream { .. } => after == (if before.incoming.len() > 0 {
            replying(
                RuntimeView {
                    incoming: before.incoming.subrange(1, before.incoming.len() as int),
                    ..before
                },
                request,
                ReplyView::Stream(Ok(before.incoming[0])),
            )
        } else {
            RuntimeView { accepts: before.accepts.push(request), ..before }
        }),
        CommandView::Read { stream_id, max_len, .. } => read_asked(
            before,
            stream_id,
            PendingRead { max_len, request },
            after,
        ),
        CommandView::Write { stream_id, data, fin, .. } => write_asked(
            before,
            stream_id,
            WriteView { data, fin, request },
            after,
        ),
        CommandView::Flush { .. } => after == (if all_acknowledged(before.core) {
            replying(before, request, ReplyView::Flush(Ok(())))
        } else {
            RuntimeView { flushes: before.flushes.push(request), ..before }
        }),
        CommandView::Close { error_code, reason, .. } => exists|outcome: Result<(), CoreError>|
            #[trigger]
            close_done(&before.wire, before.core, error_code, reason, after.core, outcome) && after == replying(
                RuntimeView { core: after.core, ..before },
                request,
                closing_reply(outcome),
            ),
    }
}

/// An endpoint, as contracts see it.
#[verifier::ext_equal]
pub struct EndpointView<W> {
    pub config: EndpointConfig,
    pub connections: Map<u64, RuntimeView<W>>,
    /// What is to be done.
    pub actions: Seq<ActionView>,
    /// The time up to which the endpoint went.
    pub clock: Duration,
}

/// One action more.
pub open spec fn doing<W: Wire>(view: EndpointView<W>, action: ActionView) -> EndpointView<W> {
    EndpointView { actions: view.actions.push(action), ..view }
}

/// The endpoint with a connection in the state it has now: its actions are the
/// endpoint's, and one that was given up is not kept.
pub open spec fn with_runtime<W: Wire>(
    view: EndpointView<W>,
    key: u64,
    runtime: RuntimeView<W>,
) -> EndpointView<W> {
    EndpointView {
        connections: if runtime.gone {
            view.connections.remove(key)
        } else {
            view.connections.insert(key, RuntimeView { actions: Seq::empty(), ..runtime })
        },
        actions: view.actions + runtime.actions,
        ..view
    }
}

/// What a request does.
pub open spec fn command_done<W: Wire>(
    before: EndpointView<W>,
    command: CommandView,
    request: u64,
    slot_free: bool,
    after: EndpointView<W>,
    result: Result<(), EndpointError>,
) -> bool {
    let key = target(command).value;
    if !before.connections.contains_key(key) {
        &&& result is Ok
        &&& after == doing(before, ActionView::Reply { request, reply: no_connection(command) })
    } else {
        exists|asked: RuntimeView<W>, processed: RuntimeView<W>|
            #![trigger requested(before.connections[key], command, request, asked),
                with_runtime(before, key, processed)]
            requested(before.connections[key], command, request, asked) && (if command
                is AcceptStream {
                processed == asked && result is Ok
            } else {
                outputs_processed(
                    asked,
                    before.config.max_send_batch,
                    slot_free,
                    processed,
                    result,
                )
            }) && after == with_runtime(before, key, processed)
    }
}

/// What asking for a connection does, once a number for it was drawn.
pub open spec fn connect_done<W: Wire>(
    before: EndpointView<W>,
    peer: SocketAddr,
    request: u64,
    drawn: Option<u64>,
    slot_free: bool,
    wire: W,
    after: EndpointView<W>,
    result: Result<bool, EndpointError>,
) -> bool {
    if before.connections.dom().len() >= before.config.max_connections {
        &&& result == Ok::<bool, EndpointError>(true)
        &&& after == refused(before, request, ConnectError::Endpoint(EndpointError::ConnectionLimit))
    } else {
        match drawn {
            None => {
                &&& result == Ok::<bool, EndpointError>(true)
                &&& after == refused(
                    before,
                    request,
                    ConnectError::Endpoint(EndpointError::RandomnessUnavailable),
                )
            },
            Some(raw) => if raw == 0 || before.connections.contains_key(raw) {
                result == Ok::<bool, EndpointError>(false) && after == before
            } else {
                connecting(before, peer, request, raw, slot_free, wire, after, result)
            },
        }
    }
}

/// The request for a connection is refused.
pub open spec fn refused<W: Wire>(
    view: EndpointView<W>,
    request: u64,
    error: ConnectError,
) -> EndpointView<W> {
    doing(view, ActionView::Reply { request, reply: ReplyView::Connect(Err(error)) })
}

/// A connection that a client has just made.
pub open spec fn outgoing<W: Wire>(
    core: ConnectionView,
    wire: W,
    peer: SocketAddr,
    now: Duration,
    request: u64,
) -> RuntimeView<W> {
    RuntimeView {
        core,
        wire,
        peer,
        is_server: false,
        last_advanced_at: now,
        connect_waiter: Some(request),
        accepted: true,
        incoming: Seq::empty(),
        accepts: Seq::empty(),
        reads: Map::empty(),
        writes: Map::empty(),
        flushes: Seq::empty(),
        actions: Seq::empty(),
        burst: 0,
        gone: false,
    }
}

/// A connection that a server has just made.
pub open spec fn incoming<W: Wire>(
    core: ConnectionView,
    wire: W,
    peer: SocketAddr,
    now: Duration,
) -> RuntimeView<W> {
    RuntimeView {
        core,
        wire,
        peer,
        is_server: true,
        last_advanced_at: now,
        connect_waiter: None,
        accepted: false,
        incoming: Seq::empty(),
        accepts: Seq::empty(),
        reads: Map::empty(),
        writes: Map::empty(),
        flushes: Seq::empty(),
        actions: Seq::empty(),
        burst: 0,
        gone: false,
    }
}

/// A connection with this number is made, or the reason why not is told.
pub open spec fn connecting<W: Wire>(
    before: EndpointView<W>,
    peer: SocketAddr,
    request: u64,
    raw: u64,
    slot_free: bool,
    wire: W,
    after: EndpointView<W>,
    result: Result<bool, EndpointError>,
) -> bool {
    exists|core: Result<ConnectionView, CoreError>| #[trigger]
        client_made(before.config.connection, ConnectionId { value: raw }, wire, core) && match core {
            Err(error) => {
                &&& result == Ok::<bool, EndpointError>(true)
                &&& after == refused(before, request, ConnectError::Core(error))
            },
            Ok(core) => exists|processed: RuntimeView<W>, outcome: Result<(), EndpointError>| #[trigger]
                outputs_processed(
                    outgoing(core, wire, peer, before.clock, request),
                    before.config.max_send_batch,
                    slot_free,
                    processed,
                    outcome,
                ) && after == with_runtime(before, raw, processed) && result == (match outcome {
                    Ok(_) => Ok::<bool, EndpointError>(true),
                    Err(error) => Err(error),
                }),
        }
}

/// What starting a client may give: its nonce is random.
pub open spec fn client_made<W: Wire>(
    config: ConnectionConfig,
    id: ConnectionId,
    wire: W,
    result: Result<ConnectionView, CoreError>,
) -> bool {
    ||| result == Err::<ConnectionView, CoreError>(CoreError::RandomnessUnavailable)
    ||| exists|given: ConnectionConfig, key: [u8; 32], handshake: HandshakeView|
        #![trigger fresh_handshake(handshake, id, key@, given),
            client_started(&wire, id, given, handshake, result)]
        given.same_as(&config) && call_ensures(W::public_key, (&wire,), key) && fresh_handshake(
            handshake,
            id,
            key@,
            given,
        ) && client_started(
            &wire,
            id,
            given,
            handshake,
            result,
        )
}

/// What starting a server may give: its nonce is random.
pub open spec fn server_made<W: Wire>(
    config: ConnectionConfig,
    id: ConnectionId,
    wire: W,
    result: Result<ConnectionView, CoreError>,
) -> bool {
    ||| result == Err::<ConnectionView, CoreError>(CoreError::RandomnessUnavailable)
    ||| exists|given: ConnectionConfig, key: [u8; 32], handshake: HandshakeView|
        #![trigger fresh_handshake(handshake, id, key@, given)]
        given.same_as(&config) && call_ensures(W::public_key, (&wire,), key) && fresh_handshake(
            handshake,
            id,
            key@,
            given,
        ) && match result {
            Ok(view) => start_refused(given) is None && started(
                view,
                ConnectionRole::Server,
                id,
                given,
                handshake,
            ),
            Err(error) => start_refused(given) == Some(error),
        }
}

/// Whether a packet opens a connection: it holds the hello of a client and
/// nothing else.
pub open spec fn is_opening(packet: PacketView) -> bool {
    &&& packet.packet_type == PacketType::Initial
    &&& packet.frames.len() == 1
    &&& packet.frames[0] is ClientHello
}

/// Whether the cookie of a hello is good.
pub open spec fn hello_proven<W: Wire>(
    view: EndpointView<W>,
    peer: SocketAddr,
    id: ConnectionId,
    cookie: Seq<u8>,
    nonce: Seq<u8>,
    unix: Option<u64>,
) -> bool {
    view.config.retry.cookie_secret matches Some(secret) && cookie_good(
        secret@,
        cookie,
        unix,
        peer,
        id,
        nonce,
        view.config.retry.cookie_ttl@ / 1_000_000_000,
        view.config.retry.clock_skew@ / 1_000_000_000,
    )
}

/// The packet that asks a client to come again with a cookie.
pub open spec fn retry_packet_view(id: ConnectionId, cookie: Seq<u8>) -> PacketView {
    PacketView {
        packet_type: PacketType::Retry,
        flags: PacketFlags { ack_eliciting: false, encrypted: false },
        connection_id: id,
        packet_number: PacketNumber { value: u64::MAX },
        frames: seq![FrameView::Retry { cookie }],
    }
}

/// A client is asked to come again with a cookie, unless that takes more bytes
/// than it sent.
pub open spec fn retry_sent<W: Wire>(
    before: EndpointView<W>,
    peer: SocketAddr,
    id: ConnectionId,
    client_nonce: Seq<u8>,
    length: nat,
    unix: Option<u64>,
    fresh: W,
    after: EndpointView<W>,
    result: Result<(), EndpointError>,
) -> bool {
    match before.config.retry.cookie_secret {
        None => after == before && result is Ok,
        Some(secret) => match unix {
            None => after == before && result == Err::<(), EndpointError>(
                EndpointError::RandomnessUnavailable,
            ),
            Some(now) => {
                let cookie = cookie_for(secret@, peer, id, client_nonce, now);
                exists|packet: Packet, encoded: Result<Vec<u8>, ProtocolError>|
                    packet@ == retry_packet_view(id, cookie) && #[trigger] call_ensures(
                        W::encode,
                        (&fresh, &packet, before.config.connection.max_datagram_size),
                        encoded,
                    ) && match encoded {
                        Err(problem) => after == before && result == Err::<(), EndpointError>(
                            EndpointError::Protocol(problem),
                        ),
                        Ok(bytes) => {
                            &&& result is Ok
                            &&& after == (if bytes@.len() > length {
                                before
                            } else {
                                doing(before, ActionView::Datagram { bytes: bytes@, peer })
                            })
                        },
                    }
            },
        },
    }
}

/// A datagram goes to this connection.
pub open spec fn delivered_to<W: Wire>(
    before: EndpointView<W>,
    key: u64,
    runtime: RuntimeView<W>,
    bytes: &[u8],
    slot_free: bool,
    after: EndpointView<W>,
    result: Result<(), EndpointError>,
) -> bool {
    exists|processed: RuntimeView<W>| #[trigger]
        received(runtime, bytes, before.config.max_send_batch, slot_free, processed, result)
            && after == with_runtime(before, key, processed)
}

/// A datagram opens a connection, unless it cannot be made.
pub open spec fn admitted<W: Wire>(
    before: EndpointView<W>,
    id: ConnectionId,
    bytes: &[u8],
    peer: SocketAddr,
    slot_free: bool,
    fresh: W,
    after: EndpointView<W>,
    result: Result<(), EndpointError>,
) -> bool {
    exists|core: Result<ConnectionView, CoreError>| #[trigger]
        server_made(before.config.connection, id, fresh, core) && match core {
            Err(_) => after == before && result is Ok,
            Ok(core) => delivered_to(
                before,
                id.value,
                incoming(core, fresh, peer, before.clock),
                bytes,
                slot_free,
                after,
                result,
            ),
        }
}

/// What the hello of a client does that is not known: it has to come with a good
/// cookie where cookies are asked for, and there has to be room.
pub open spec fn welcomed<W: Wire>(
    before: EndpointView<W>,
    id: ConnectionId,
    hello: ClientHelloView,
    bytes: &[u8],
    peer: SocketAddr,
    unix: Option<u64>,
    slot_free: bool,
    fresh: W,
    after: EndpointView<W>,
    result: Result<(), EndpointError>,
) -> bool {
    if before.config.retry.enabled && !hello_proven(
        before,
        peer,
        id,
        hello.cookie,
        hello.client_nonce,
        unix,
    ) {
        retry_sent(
            before,
            peer,
            id,
            hello.client_nonce,
            bytes@.len(),
            unix,
            fresh,
            after,
            result,
        )
    } else if before.connections.dom().len() >= before.config.max_connections {
        after == before && result is Ok
    } else {
        admitted(before, id, bytes, peer, slot_free, fresh, after, result)
    }
}

/// What a datagram does that names a connection which is not known, given the
/// packet that the layout finds in it.
pub open spec fn unknown_taken<W: Wire>(
    before: EndpointView<W>,
    id: ConnectionId,
    decoded: Result<PacketView, ProtocolError>,
    bytes: &[u8],
    peer: SocketAddr,
    unix: Option<u64>,
    slot_free: bool,
    fresh: W,
    after: EndpointView<W>,
    result: Result<(), EndpointError>,
) -> bool {
    if decoded is Err || !is_opening(decoded->Ok_0) {
        after == before && result is Ok
    } else {
        welcomed(
            before,
            id,
            decoded->Ok_0.frames[0]->ClientHello_0,
            bytes,
            peer,
            unix,
            slot_free,
            fresh,
            after,
            result,
        )
    }
}

/// What a datagram does, given which connection the layout finds in it.
pub open spec fn routed<W: Wire>(
    before: EndpointView<W>,
    peeked: Result<ConnectionId, ProtocolError>,
    bytes: &[u8],
    peer: SocketAddr,
    unix: Option<u64>,
    slot_free: bool,
    fresh: W,
    after: EndpointView<W>,
    result: Result<(), EndpointError>,
) -> bool {
    let dropped = after == before && result is Ok;
    match peeked {
        Err(_) => dropped,
        Ok(id) => {
            let known = before.connections[id.value];
            if before.connections.contains_key(id.value) {
                if known.peer != peer {
                    dropped
                } else {
                    delivered_to(before, id.value, known, bytes, slot_free, after, result)
                }
            } else {
                exists|decoded: Result<Packet, ProtocolError>| #[trigger]
                    call_ensures(
                        W::decode,
                        (&fresh, bytes, before.config.connection.max_datagram_size),
                        decoded,
                    ) && unknown_taken(
                        before,
                        id,
                        packet_view(decoded),
                        bytes,
                        peer,
                        unix,
                        slot_free,
                        fresh,
                        after,
                        result,
                    )
            }
        },
    }
}

/// What a datagram does: one that is too long is dropped, the others go where
/// the layout says.
pub open spec fn datagram_handled<W: Wire>(
    before: EndpointView<W>,
    bytes: &[u8],
    peer: SocketAddr,
    unix: Option<u64>,
    slot_free: bool,
    fresh: W,
    after: EndpointView<W>,
    result: Result<(), EndpointError>,
) -> bool {
    let limit = before.config.connection.max_datagram_size;
    if bytes@.len() > limit {
        after == before && result is Ok
    } else {
        exists|peeked: Result<ConnectionId, ProtocolError>| #[trigger]
            call_ensures(W::peek_connection_id, (&fresh, bytes, limit), peeked) && routed(
                before,
                peeked,
                bytes,
                peer,
                unix,
                slot_free,
                fresh,
                after,
                result,
            )
    }
}

/// Time goes on for the first `count` connections, up to an error.
pub open spec fn times_done<W: Wire>(
    before: EndpointView<W>,
    keys: Seq<u64>,
    count: int,
    slot_free: bool,
    after: EndpointView<W>,
    result: Result<(), EndpointError>,
) -> bool
    decreases count,
{
    if count <= 0 {
        after == before && result is Ok
    } else {
        exists|middle: EndpointView<W>, so_far: Result<(), EndpointError>| #[trigger]
            advance_follows(middle, so_far, keys[count - 1], slot_free, after, result)
                && times_done(before, keys, count - 1, slot_free, middle, so_far)
    }
}

/// Time goes on for one connection after what came before it: not after an error.
pub open spec fn advance_follows<W: Wire>(
    before: EndpointView<W>,
    so_far: Result<(), EndpointError>,
    key: u64,
    slot_free: bool,
    after: EndpointView<W>,
    result: Result<(), EndpointError>,
) -> bool {
    if so_far is Ok {
        one_advanced(before, key, slot_free, after, result)
    } else {
        after == before && result == so_far
    }
}

/// Time goes on for one connection.
pub open spec fn one_advanced<W: Wire>(
    before: EndpointView<W>,
    key: u64,
    slot_free: bool,
    after: EndpointView<W>,
    result: Result<(), EndpointError>,
) -> bool {
    exists|processed: RuntimeView<W>| #[trigger]
        advanced(
            before.connections[key],
            before.clock,
            before.config.max_send_batch,
            slot_free,
            processed,
            result,
        ) && after == with_runtime(before, key, processed)
}

/// The first `count` connections are given up.
pub open spec fn closed_all<W: Wire>(
    before: EndpointView<W>,
    keys: Seq<u64>,
    count: int,
    after: EndpointView<W>,
) -> bool
    decreases count,
{
    if count <= 0 {
        after == before
    } else {
        exists|middle: EndpointView<W>, gone: RuntimeView<W>|
            #![trigger with_runtime(middle, keys[count - 1], gone)]
            closed_all(before, keys, count - 1, middle) && retired(
                middle.connections[keys[count - 1]],
                0,
                gone,
            ) && after == with_runtime(middle, keys[count - 1], gone)
    }
}

/// The connections, as contracts see them.
spec fn runtime_views<W>(connections: Map<u64, Runtime<W>>) -> Map<u64, RuntimeView<W>> {
    Map::new(|key: u64| connections.contains_key(key), |key: u64| connections[key]@)
}

/// What became of a request for a connection.
pub enum ConnectStep<W> {
    /// It is answered or under way.
    Done,
    /// The number that was drawn cannot be used: the request is to be made again.
    Again(W),
}

/// The connections of an endpoint and what is to be done for them.
pub struct EventLoop<W> {
    config: EndpointConfig,
    connections: OrderedMap<Runtime<W>>,
    actions: Vec<Action>,
    clock: Duration,
}

impl<W> View for EventLoop<W> {
    type V = EndpointView<W>;

    closed spec fn view(&self) -> EndpointView<W> {
        EndpointView {
            config: self.config,
            connections: runtime_views(self.connections@),
            actions: action_views(self.actions@),
            clock: self.clock,
        }
    }
}

impl<W: Wire> EventLoop<W> {
    /// The connections are right, none is ahead of the clock, and what is to be
    /// done for them is known.
    pub closed spec fn well_formed(&self) -> bool {
        &&& self.connections.well_formed()
        &&& self.clock@ * 8 <= MAX_NANOS
        &&& forall|key: u64| #[trigger]
            self.connections@.contains_key(key) ==> self.connections@[key].well_formed()
                && self.connections@[key]@.last_advanced_at@ <= self.clock@
    }

    /// An endpoint without connections.
    pub fn new(config: EndpointConfig) -> (endpoint: Self)
        ensures
            endpoint.well_formed(),
            endpoint@.config == config,
            endpoint@.connections == Map::<u64, RuntimeView<W>>::empty(),
            endpoint@.actions == Seq::<ActionView>::empty(),
            endpoint@.clock@ == 0,
    {
        let endpoint = EventLoop {
            config,
            connections: OrderedMap::new(),
            actions: Vec::new(),
            clock: Duration::zero(),
        };
        assert(endpoint@.connections =~= Map::<u64, RuntimeView<W>>::empty());
        assert(endpoint@.actions =~= Seq::<ActionView>::empty());
        endpoint
    }

    /// Tells what time it is. A clock that goes back counts as one that stands.
    pub fn observe(&mut self, now: Duration)
        requires
            old(self).well_formed(),
            now@ * 8 <= MAX_NANOS,
        ensures
            final(self).well_formed(),
            final(self)@ == (EndpointView { clock: final(self)@.clock, ..old(self)@ }),
            final(self)@.clock@ == greater(now@ as int, old(self)@.clock@ as int),
    {
        if now.as_nanos() > self.clock.as_nanos() {
            self.clock = now;
        }
    }

    /// Takes what is to be done.
    pub fn take_actions(&mut self) -> (actions: Vec<Action>)
        requires
            old(self).well_formed(),
        ensures
            final(self).well_formed(),
            action_views(actions@) == old(self)@.actions,
            final(self)@ == (EndpointView { actions: Seq::empty(), ..old(self)@ }),
    {
        let mut actions: Vec<Action> = Vec::new();
        std::mem::swap(&mut actions, &mut self.actions);
        assert(self@.actions =~= Seq::empty());
        actions
    }

    /// Has something done.
    fn act(&mut self, action: Action)
        requires
            old(self).well_formed(),
        ensures
            final(self).well_formed(),
            final(self)@ == doing(old(self)@, action@),
    {
        proof {
            lemma_action_pushed(self.actions@, action);
        }
        self.actions.push(action);
    }

    /// Puts a connection back in the state it has now.
    fn put_back(&mut self, key: u64, runtime: Runtime<W>)
        requires
            old(self).well_formed(),
            runtime.well_formed(),
            runtime@.last_advanced_at@ <= old(self)@.clock@,
        ensures
            final(self).well_formed(),
            final(self)@ == with_runtime(old(self)@, key, runtime@),
    {
        let ghost first = self@;
        let ghost view = runtime@;
        let ghost held = self.connections@;
        let mut runtime = runtime;
        let actions: Vec<Action> = runtime.take_actions();
        self.append(actions);
        if runtime.is_gone() {
            let _ = self.connections.remove(key);
            assert(runtime_views(self.connections@) =~= runtime_views(held).remove(key));
        } else {
            let ghost kept = runtime@;
            self.connections.insert(key, runtime);
            assert(runtime_views(self.connections@) =~= runtime_views(held).insert(key, kept));
        }
        assert(self@ =~= with_runtime(first, key, view));
    }

    fn append(&mut self, actions: Vec<Action>)
        requires
            old(self).well_formed(),
        ensures
            final(self).well_formed(),
            final(self)@ == (EndpointView {
                actions: old(self)@.actions + action_views(actions@),
                ..old(self)@
            }),
            final(self).connections == old(self).connections,
    {
        let ghost first = self@;
        let ghost views = action_views(actions@);
        let ghost mut index: int = 0;
        let mut rest: Vec<Action> = actions;
        assert(views.subrange(0, 0) =~= Seq::empty());
        loop
            invariant
                self.well_formed(),
                first == old(self)@,
                views == action_views(actions@),
                self.connections == old(self).connections,
                0 <= index <= views.len(),
                rest@.len() == views.len() - index,
                forall|i: int|
                    0 <= i < rest@.len() ==> (#[trigger] rest@[i])@ == views[index + i],
                self@ == (EndpointView {
                    actions: first.actions + views.subrange(0, index),
                    ..first
                }),
            decreases rest@.len(),
        {
            if rest.len() == 0 {
                assert(views.subrange(0, views.len() as int) =~= views);
                return;
            }
            let action = rest.remove(0);
            assert(action@ == views[index]);
            proof {
                lemma_action_pushed(self.actions@, action);
            }
            self.actions.push(action);
            proof {
                index = index + 1;
                assert(views.subrange(0, index) =~= views.subrange(0, index - 1).push(
                    views[index - 1],
                ));
                assert(self@.actions =~= first.actions + views.subrange(0, index));
            }
        }
    }

    /// Takes a connection out, to be put back.
    fn take_out(&mut self, key: u64) -> (runtime: Option<Runtime<W>>)
        requires
            old(self).well_formed(),
        ensures
            final(self).well_formed(),
            final(self)@ == (EndpointView {
                connections: old(self)@.connections.remove(key),
                ..old(self)@
            }),
            match runtime {
                Some(runtime) => {
                    &&& old(self)@.connections.contains_key(key)
                    &&& runtime@ == old(self)@.connections[key]
                    &&& runtime.well_formed()
                    &&& runtime@.last_advanced_at@ <= old(self)@.clock@
                },
                None => !old(self)@.connections.contains_key(key) && final(self)@ == old(self)@,
            },
    {
        let ghost held = self.connections@;
        let taken = self.connections.remove(key);
        assert(runtime_views(self.connections@) =~= runtime_views(held).remove(key));
        proof {
            if !held.contains_key(key) {
                assert(self@ =~= old(self)@);
            }
        }
        taken
    }

    /// The numbers of the connections.
    fn connection_keys(&self) -> (keys: Vec<u64>)
        requires
            self.well_formed(),
        ensures
            keys_of(keys@, self@),
    {
        let mut keys: Vec<u64> = Vec::new();
        let mut index: usize = 0;
        while index < self.connections.len()
            invariant
                self.well_formed(),
                index <= self.connections.keys().len(),
                keys@ == self.connections.keys().subrange(0, index as int),
            decreases self.connections.keys().len() - index,
        {
            keys.push(self.connections.key_at(index));
            index = index + 1;
            assert(keys@ =~= self.connections.keys().subrange(0, index as int));
        }
        proof {
            self.connections.lemma_keys();
            assert(keys@ =~= self.connections.keys());
        }
        keys
    }

    /// The number of connections.
    pub fn len(&self) -> (count: usize)
        requires
            self.well_formed(),
        ensures
            count == self@.connections.dom().len(),
    {
        assert(self@.connections.dom() =~= self.connections@.dom());
        self.connections.len()
    }

    /// Lets time pass for all connections, up to the time last told.
    pub fn advance_time(&mut self, slot_free: bool) -> (result: Result<(), EndpointError>)
        requires
            old(self).well_formed(),
        ensures
            final(self).well_formed(),
            exists|keys: Seq<u64>| #[trigger]
                keys_of(keys, old(self)@) && times_done(
                    old(self)@,
                    keys,
                    keys.len() as int,
                    slot_free,
                    final(self)@,
                    result,
                ),
    {
        let ghost first = self@;
        let keys: Vec<u64> = self.connection_keys();
        let batch: usize = self.config.max_send_batch;
        proof {
            assert(times_done(first, keys@, 0, slot_free, first, Ok(())));
            assert forall|i: int| 0 <= i < keys@.len() implies self@.connections.contains_key(
                #[trigger] keys@[i],
            ) by {
                assert(keys@.contains(keys@[i]));
            }
        }
        let mut index: usize = 0;
        while index < keys.len()
            invariant
                index <= keys@.len(),
                self.well_formed(),
                first == old(self)@,
                keys_of(keys@, first),
                self@.clock == first.clock,
                self@.config == first.config,
                batch == first.config.max_send_batch,
                forall|i: int|
                    index <= i < keys@.len() ==> self@.connections.contains_key(
                        #[trigger] keys@[i],
                    ),
                times_done(first, keys@, index as int, slot_free, self@, Ok(())),
            decreases keys@.len() - index,
        {
            let key: u64 = keys[index];
            let ghost before = self@;
            assert(before.connections.contains_key(keys@[index as int]));
            match self.take_out(key) {
                None => {},
                Some(taken) => {
                    let mut runtime = taken;
                    let ghost known = runtime@;
                    let ghost without = self@;
                    let outcome = runtime.advance(self.clock, batch, slot_free);
                    let ghost processed = runtime@;
                    self.put_back(key, runtime);
                    proof {
                        lemma_taken_and_put_back(before, without, key, processed);
                        assert(one_advanced(before, key, slot_free, self@, outcome));
                        let next = index + 1;
                        assert(advance_follows(
                            before,
                            Ok(()),
                            keys@[next - 1],
                            slot_free,
                            self@,
                            outcome,
                        ));
                        assert(times_done(first, keys@, next, slot_free, self@, outcome));
                        assert forall|i: int|
                            index < i < keys@.len() implies self@.connections.contains_key(
                            #[trigger] keys@[i],
                        ) by {
                            assert(keys@[index as int] < keys@[i]);
                            assert(before.connections.contains_key(keys@[i]));
                        }
                    }
                    match outcome {
                        Ok(_) => {
                            assert(outcome->Ok_0 == ());
                        },
                        Err(error) => {
                            proof {
                                lemma_times_stop(
                                    first,
                                    keys@,
                                    index + 1,
                                    keys@.len() as int,
                                    slot_free,
                                    self@,
                                    outcome,
                                );
                            }
                            return Err(error);
                        },
                    }
                },
            }
            index = index + 1;
        }
        Ok(())
    }

    /// The time at which the next timer of a connection is due.
    pub fn next_deadline(&self) -> (result: Result<Option<Duration>, CoreError>)
        requires
            self.well_formed(),
        ensures
            match result {
                Ok(None) => forall|key: u64| #[trigger]
                    self@.connections.contains_key(key)
                        ==> self@.connections[key].core.timers.timers.dom().len() == 0,
                Ok(Some(at)) => {
                    &&& exists|key: u64| #[trigger]
                        self@.connections.contains_key(key) && due_at(
                            self@.connections[key],
                            at@,
                        )
                    &&& forall|key: u64| #[trigger]
                        self@.connections.contains_key(key) ==> not_due_before(
                            self@.connections[key],
                            at@,
                        )
                },
                Err(error) => error == CoreError::Timer(TimerError::DeadlineOverflow),
            },
            result is Err <==> exists|key: u64| #[trigger]
                self@.connections.contains_key(key) && too_far(self@.connections[key].core),
    {
        let mut earliest: Option<Duration> = None;
        let mut index: usize = 0;
        proof {
            self.connections.lemma_keys();
        }
        while index < self.connections.len()
            invariant
                self.well_formed(),
                index <= self.connections.keys().len(),
                forall|i: int|
                    0 <= i < index ==> !too_far(
                        self@.connections[#[trigger] self.connections.keys()[i]].core,
                    ),
                match earliest {
                    None => forall|i: int|
                        0 <= i < index ==> self@.connections[#[trigger] self.connections.keys()[i]].core.timers.timers.dom().len()
                            == 0,
                    Some(at) => {
                        &&& exists|key: u64| #[trigger]
                            self@.connections.contains_key(key) && due_at(
                                self@.connections[key],
                                at@,
                            )
                        &&& forall|i: int|
                            0 <= i < index ==> not_due_before(
                                self@.connections[#[trigger] self.connections.keys()[i]],
                                at@,
                            )
                    },
                },
            decreases self.connections.keys().len() - index,
        {
            let ghost key = self.connections.keys()[index as int];
            let runtime = self.connections.value_at(index);
            assert(self@.connections.contains_key(key));
            assert(self@.connections[key] == runtime@);
            match runtime.next_deadline() {
                Err(error) => {
                    return Err(error);
                },
                Ok(None) => {},
                Ok(Some(left)) => {
                    let at = match runtime.last_advanced_at().checked_add(left) {
                        Some(at) => at,
                        None => Duration::longest(),
                    };
                    assert(due_at(self@.connections[key], at@));
                    earliest = match earliest {
                        None => Some(at),
                        Some(other) => if at.as_nanos() < other.as_nanos() {
                            Some(at)
                        } else {
                            Some(other)
                        },
                    };
                },
            }
            index = index + 1;
        }
        proof {
            assert forall|key: u64| #[trigger] self@.connections.contains_key(key) implies exists|
                i: int,
            | 0 <= i < self.connections.keys().len() && #[trigger] self.connections.keys()[i]
                == key by {
                assert(self.connections.keys().contains(key));
            }
        }
        Ok(earliest)
    }

    /// Takes a datagram. `unix` is the time of day in seconds, if the clock tells
    /// one; `fresh` reads the layout, and serves the connection if the datagram
    /// opens one.
    pub fn handle_datagram(
        &mut self,
        bytes: &[u8],
        peer: SocketAddr,
        unix: Option<u64>,
        slot_free: bool,
        fresh: W,
    ) -> (result: Result<(), EndpointError>)
        requires
            old(self).well_formed(),
        ensures
            final(self).well_formed(),
            datagram_handled(
                old(self)@,
                bytes,
                peer,
                unix,
                slot_free,
                fresh,
                final(self)@,
                result,
            ),
    {
        let ghost first = self@;
        let limit: usize = self.config.connection.max_datagram_size;
        if bytes.len() > limit {
            return Ok(());
        }
        let id = match fresh.peek_connection_id(bytes, limit) {
            Ok(id) => id,
            Err(_) => {
                return Ok(());
            },
        };
        match self.take_out(id.value) {
            Some(taken) => {
                let ghost known = taken@;
                let ghost without = self@;
                if taken.peer() != peer {
                    self.put_back_untouched(id.value, taken);
                    assert(self@ =~= first);
                    return Ok(());
                }
                let result = self.deliver(id.value, taken, bytes, slot_free);
                proof {
                    lemma_delivered_without(
                        first,
                        without,
                        id.value,
                        known,
                        bytes,
                        slot_free,
                        self@,
                        result,
                    );
                }
                result
            },
            None => {
                let packet = match fresh.decode(bytes, limit) {
                    Ok(packet) => packet,
                    Err(_) => {
                        return Ok(());
                    },
                };
                if packet.packet_type != PacketType::Initial || packet.frames.len() != 1 {
                    return Ok(());
                }
                match &packet.frames[0] {
                    Frame::ClientHello(hello) => {
                        assert(packet@.frames[0] == FrameView::ClientHello(hello@));
                        self.welcome(id, hello, bytes, peer, unix, slot_free, fresh)
                    },
                    _ => {
                        assert(!(packet@.frames[0] is ClientHello));
                        Ok(())
                    },
                }
            },
        }
    }

    /// Puts a connection back that nothing happened to.
    fn put_back_untouched(&mut self, key: u64, runtime: Runtime<W>)
        requires
            old(self).well_formed(),
            runtime.well_formed(),
            runtime@.last_advanced_at@ <= old(self)@.clock@,
        ensures
            final(self).well_formed(),
            final(self)@ == (EndpointView {
                connections: old(self)@.connections.insert(key, runtime@),
                ..old(self)@
            }),
    {
        let ghost held = self.connections@;
        let ghost view = runtime@;
        self.connections.insert(key, runtime);
        assert(runtime_views(self.connections@) =~= runtime_views(held).insert(key, view));
    }

    /// Hands a datagram to a connection that is not among those kept.
    fn deliver(&mut self, key: u64, runtime: Runtime<W>, bytes: &[u8], slot_free: bool) -> (result:
        Result<(), EndpointError>)
        requires
            old(self).well_formed(),
            runtime.well_formed(),
            runtime@.last_advanced_at@ <= old(self)@.clock@,
        ensures
            final(self).well_formed(),
            delivered_to(old(self)@, key, runtime@, bytes, slot_free, final(self)@, result),
    {
        let ghost first = self@;
        let ghost known = runtime@;
        let mut runtime = runtime;
        let result = runtime.receive(bytes, self.config.max_send_batch, slot_free);
        let ghost processed = runtime@;
        self.put_back(key, runtime);
        assert(received(
            known,
            bytes,
            first.config.max_send_batch,
            slot_free,
            processed,
            result,
        ));
        result
    }

    /// Takes the hello of a client that is not known.
    fn welcome(
        &mut self,
        id: ConnectionId,
        hello: &ClientHello,
        bytes: &[u8],
        peer: SocketAddr,
        unix: Option<u64>,
        slot_free: bool,
        fresh: W,
    ) -> (result: Result<(), EndpointError>)
        requires
            old(self).well_formed(),
        ensures
            final(self).well_formed(),
            welcomed(
                old(self)@,
                id,
                hello@,
                bytes,
                peer,
                unix,
                slot_free,
                fresh,
                final(self)@,
                result,
            ),
    {
        let ghost first = self@;
        if self.config.retry.enabled && !self.cookie_is_valid(peer, id, hello, unix) {
            return self.send_retry(peer, id, hello, bytes.len(), unix, fresh);
        }
        if self.len() >= self.config.max_connections {
            return Ok(());
        }
        let config = self.config.connection.copy();
        let ghost copied = config;
        let public_key = fresh.public_key();
        let made = Connection::new_server(id, config, public_key);
        let ghost outcome = spec_made(made);
        proof {
            lemma_server_made(first.config.connection, copied, id, fresh, public_key, made);
        }
        let core = match made {
            Ok(core) => core,
            Err(_) => {
                assert(server_made(first.config.connection, id, fresh, outcome));
                return Ok(());
            },
        };
        assert(server_made(first.config.connection, id, fresh, outcome));
        let runtime = Runtime::new(core, fresh, peer, true, self.clock, None);
        self.deliver(id.value, runtime, bytes, slot_free)
    }

    /// Whether the cookie of a hello is good.
    pub fn cookie_is_valid(
        &self,
        peer: SocketAddr,
        id: ConnectionId,
        hello: &ClientHello,
        unix: Option<u64>,
    ) -> (good: bool)
        ensures
            good <==> hello_proven(
                self@,
                peer,
                id,
                hello.cookie@,
                hello.client_nonce@,
                unix,
            ),
    {
        match &self.config.retry.cookie_secret {
            None => false,
            Some(secret) => validate_cookie(
                secret,
                &hello.cookie,
                unix,
                CookieContext {
                    peer,
                    connection_id: id,
                    client_nonce: &hello.client_nonce,
                    cookie_ttl: self.config.retry.cookie_ttl,
                    clock_skew: self.config.retry.clock_skew,
                },
            ),
        }
    }

    /// Asks a client to come again with a cookie.
    fn send_retry(
        &mut self,
        peer: SocketAddr,
        id: ConnectionId,
        hello: &ClientHello,
        received_len: usize,
        unix: Option<u64>,
        fresh: W,
    ) -> (result: Result<(), EndpointError>)
        requires
            old(self).well_formed(),
        ensures
            final(self).well_formed(),
            retry_sent(
                old(self)@,
                peer,
                id,
                hello.client_nonce@,
                received_len as nat,
                unix,
                fresh,
                final(self)@,
                result,
            ),
    {
        let cookie: Vec<u8> = match &self.config.retry.cookie_secret {
            None => {
                return Ok(());
            },
            Some(secret) => match issue_cookie(secret, peer, id, &hello.client_nonce, unix) {
                Ok(cookie) => cookie,
                Err(_) => {
                    return Err(EndpointError::RandomnessUnavailable);
                },
            },
        };
        let packet = retry_packet(id, cookie);
        let bytes: Vec<u8> = match fresh.encode(&packet, self.config.connection.max_datagram_size) {
            Ok(bytes) => bytes,
            Err(problem) => {
                return Err(EndpointError::Protocol(problem));
            },
        };
        if bytes.len() <= received_len {
            self.act(Action::Datagram { bytes, peer });
        }
        Ok(())
    }

    /// Does what a request asks for.
    pub fn handle_command(&mut self, command: Command, request: u64, slot_free: bool) -> (result:
        Result<(), EndpointError>)
        requires
            old(self).well_formed(),
        ensures
            final(self).well_formed(),
            command_done(old(self)@, command@, request, slot_free, final(self)@, result),
    {
        let ghost first = self@;
        let ghost view = command@;
        let id = command.target();
        let batch: usize = self.config.max_send_batch;
        match self.take_out(id.value) {
            None => {
                let reply = command.no_connection();
                self.act(Action::Reply { request, reply });
                Ok(())
            },
            Some(taken) => {
                let mut runtime = taken;
                let ghost known = runtime@;
                let ghost without = self@;
                let waits_only: bool = match &command {
                    Command::AcceptStream { .. } => true,
                    _ => false,
                };
                Self::ask(&mut runtime, command, request);
                let ghost asked = runtime@;
                let result = if waits_only {
                    Ok(())
                } else {
                    runtime.process_outputs(batch, slot_free)
                };
                let ghost processed = runtime@;
                self.put_back(id.value, runtime);
                proof {
                    lemma_taken_and_put_back(first, without, id.value, processed);
                    assert(requested(first.connections[id.value], view, request, asked));
                    assert(self@ == with_runtime(first, id.value, processed));
                }
                result
            },
        }
    }

    /// Does to a connection what a request asks for.
    fn ask(runtime: &mut Runtime<W>, command: Command, request: u64)
        requires
            old(runtime).well_formed(),
        ensures
            final(runtime).well_formed(),
            final(runtime)@.last_advanced_at == old(runtime)@.last_advanced_at,
            requested(old(runtime)@, command@, request, final(runtime)@),
    {
        let ghost first = runtime@;
        let ghost view = command@;
        match command {
            Command::OpenStream { .. } => {
                runtime.open_stream(request);
                assert(requested(first, view, request, runtime@));
            },
            Command::AcceptStream { .. } => {
                runtime.accept_stream(request);
                assert(requested(first, view, request, runtime@));
            },
            Command::Read { stream_id, max_len, .. } => {
                runtime.read(stream_id, max_len, request);
                assert(requested(first, view, request, runtime@));
            },
            Command::Write { stream_id, data, fin, .. } => {
                runtime.write(stream_id, data, fin, request);
                assert(requested(first, view, request, runtime@));
            },
            Command::Flush { .. } => {
                runtime.flush(request);
                assert(requested(first, view, request, runtime@));
            },
            Command::Close { error_code, reason, .. } => {
                let ghost text = reason@;
                runtime.close(error_code, reason, request);
                proof {
                    let outcome = choose|outcome: Result<(), CoreError>| #[trigger]
                        close_done(&first.wire, first.core, error_code, text, runtime@.core, outcome)
                            && runtime@ == replying(
                            RuntimeView { core: runtime@.core, ..first },
                            request,
                            closing_reply(outcome),
                        );
                    assert(close_done(&first.wire, first.core, error_code, text, runtime@.core, outcome));
                    assert(view is Close);
                    assert(view->Close_error_code == error_code);
                    assert(view->Close_reason == text);
                    assert(requested(first, view, request, runtime@));
                }
            },
        }
    }

    /// Makes a connection: draws a number for it and sends the hello.
    pub fn handle_connect(&mut self, peer: SocketAddr, request: u64, slot_free: bool, wire: W)
        -> (result: Result<ConnectStep<W>, EndpointError>)
        requires
            old(self).well_formed(),
        ensures
            final(self).well_formed(),
            exists|drawn: Option<u64>| #[trigger]
                connect_done(
                    old(self)@,
                    peer,
                    request,
                    drawn,
                    slot_free,
                    wire,
                    final(self)@,
                    is_done(result),
                ),
            result matches Ok(ConnectStep::Again(given)) ==> given == wire,
    {
        let drawn: Option<u64> = match random_bytes::<8>() {
            Ok(bytes) => Some(read_be(&bytes, 0, 8) as u64),
            Err(_) => None,
        };
        self.connect_as(peer, request, drawn, slot_free, wire)
    }

    /// Makes a connection with a number that was drawn, if one was.
    pub fn connect_as(
        &mut self,
        peer: SocketAddr,
        request: u64,
        drawn: Option<u64>,
        slot_free: bool,
        wire: W,
    ) -> (result: Result<ConnectStep<W>, EndpointError>)
        requires
            old(self).well_formed(),
        ensures
            final(self).well_formed(),
            connect_done(
                old(self)@,
                peer,
                request,
                drawn,
                slot_free,
                wire,
                final(self)@,
                is_done(result),
            ),
            result matches Ok(ConnectStep::Again(given)) ==> given == wire,
    {
        let ghost first = self@;
        if self.len() >= self.config.max_connections {
            self.act(
                Action::Reply {
                    request,
                    reply: Reply::Connect(
                        Err(ConnectError::Endpoint(EndpointError::ConnectionLimit)),
                    ),
                },
            );
            return Ok(ConnectStep::Done);
        }
        let raw: u64 = match drawn {
            Some(raw) => raw,
            None => {
                self.act(
                    Action::Reply {
                        request,
                        reply: Reply::Connect(
                            Err(ConnectError::Endpoint(EndpointError::RandomnessUnavailable)),
                        ),
                    },
                );
                return Ok(ConnectStep::Done);
            },
        };
        if raw == 0 || self.connections.contains_key(raw) {
            assert(raw != 0 ==> self@.connections.contains_key(raw));
            return Ok(ConnectStep::Again(wire));
        }
        assert(!self@.connections.contains_key(raw));
        let id = ConnectionId::new(raw);
        let config = self.config.connection.copy();
        let ghost copied = config;
        let public_key = wire.public_key();
        let made = Connection::new_client(id, config, public_key, &wire);
        let ghost outcome = spec_made(made);
        proof {
            lemma_client_made(first.config.connection, copied, id, wire, public_key, made);
        }
        let core = match made {
            Ok(core) => core,
            Err(error) => {
                assert(client_made(first.config.connection, id, wire, outcome));
                self.act(
                    Action::Reply { request, reply: Reply::Connect(Err(ConnectError::Core(error))) },
                );
                return Ok(ConnectStep::Done);
            },
        };
        assert(client_made(first.config.connection, id, wire, outcome));
        let mut runtime = Runtime::new(core, wire, peer, false, self.clock, Some(request));
        let ghost fresh = runtime@;
        assert(fresh == outgoing(core@, wire, peer, first.clock, request));
        let outcome = runtime.process_outputs(self.config.max_send_batch, slot_free);
        let ghost processed = runtime@;
        self.put_back(raw, runtime);
        assert(outputs_processed(
            outgoing(core@, wire, peer, first.clock, request),
            first.config.max_send_batch,
            slot_free,
            processed,
            outcome,
        ));
        match outcome {
            Ok(_) => Ok(ConnectStep::Done),
            Err(error) => Err(error),
        }
    }

    /// Gives all connections up.
    pub fn close_all(&mut self)
        requires
            old(self).well_formed(),
        ensures
            final(self).well_formed(),
            final(self)@.connections == Map::<u64, RuntimeView<W>>::empty(),
            exists|keys: Seq<u64>| #[trigger]
                keys_of(keys, old(self)@) && closed_all(
                    old(self)@,
                    keys,
                    keys.len() as int,
                    final(self)@,
                ),
    {
        let ghost first = self@;
        let keys: Vec<u64> = self.connection_keys();
        proof {
            assert forall|i: int| 0 <= i < keys@.len() implies self@.connections.contains_key(
                #[trigger] keys@[i],
            ) by {
                assert(keys@.contains(keys@[i]));
            }
            assert(closed_all(first, keys@, 0, first));
        }
        let mut index: usize = 0;
        while index < keys.len()
            invariant
                index <= keys@.len(),
                self.well_formed(),
                first == old(self)@,
                keys_of(keys@, first),
                forall|i: int|
                    index <= i < keys@.len() ==> self@.connections.contains_key(
                        #[trigger] keys@[i],
                    ),
                forall|key: u64| #[trigger]
                    self@.connections.contains_key(key) ==> first.connections.contains_key(key),
                forall|i: int|
                    0 <= i < index ==> !self@.connections.contains_key(#[trigger] keys@[i]),
                closed_all(first, keys@, index as int, self@),
            decreases keys@.len() - index,
        {
            let key: u64 = keys[index];
            let ghost before = self@;
            assert(before.connections.contains_key(keys@[index as int]));
            match self.take_out(key) {
                None => {},
                Some(taken) => {
                    let mut runtime = taken;
                    let ghost without = self@;
                    runtime.retire(0);
                    let ghost gone = runtime@;
                    self.put_back(key, runtime);
                    proof {
                        lemma_taken_and_put_back(before, without, key, gone);
                        assert(self@ == with_runtime(before, keys@[index as int], gone));
                        assert(closed_all(first, keys@, index + 1, self@));
                        assert forall|i: int|
                            index < i < keys@.len() implies self@.connections.contains_key(
                            #[trigger] keys@[i],
                        ) by {
                            assert(keys@[index as int] < keys@[i]);
                            assert(before.connections.contains_key(keys@[i]));
                        }
                    }
                },
            }
            index = index + 1;
        }
        assert(self@.connections =~= Map::<u64, RuntimeView<W>>::empty()) by {
            assert forall|key: u64| !#[trigger] self@.connections.contains_key(key) by {
                if self@.connections.contains_key(key) {
                    assert(keys@.contains(key));
                    let i = keys@.index_of(key);
                    assert(keys@[i] == key);
                }
            }
        }
    }
}

impl Command {
    /// The connection that the request is for.
    fn target(&self) -> (id: ConnectionId)
        ensures
            id == target(self@),
    {
        match self {
            Command::OpenStream { connection_id } => *connection_id,
            Command::AcceptStream { connection_id } => *connection_id,
            Command::Read { connection_id, .. } => *connection_id,
            Command::Write { connection_id, .. } => *connection_id,
            Command::Flush { connection_id } => *connection_id,
            Command::Close { connection_id, .. } => *connection_id,
        }
    }

    /// The answer if that connection is not there.
    fn no_connection(&self) -> (reply: Reply)
        ensures
            reply@ == no_connection(self@),
    {
        let closed = StreamError::ConnectionClosed { error_code: 0 };
        match self {
            Command::OpenStream { .. } => Reply::Stream(Err(closed)),
            Command::AcceptStream { .. } => Reply::Stream(Err(closed)),
            Command::Read { .. } => Reply::Read(Err(closed)),
            Command::Write { .. } => Reply::Write(Err(closed)),
            Command::Flush { .. } => Reply::Flush(Err(closed)),
            Command::Close { .. } => Reply::Close(
                Err(ConnectError::ConnectionClosed { error_code: 0 }),
            ),
        }
    }
}

/// The packet that asks a client to come again with a cookie. Its number is of no
/// sequence, so that it is none of a packet to come.
pub fn retry_packet(id: ConnectionId, cookie: Vec<u8>) -> (packet: Packet)
    ensures
        packet@ == retry_packet_view(id, cookie@),
{
    let ghost bytes = cookie@;
    let mut frames: Vec<Frame> = Vec::new();
    frames.push(Frame::Retry(Retry { cookie }));
    let packet = Packet::new(
        PacketType::Retry,
        PacketFlags { ack_eliciting: false, encrypted: false },
        id,
        PacketNumber::new(u64::MAX),
        frames,
    );
    assert(packet@.frames =~= seq![FrameView::Retry { cookie: bytes }]);
    packet
}

/// Whether a request for a connection need not be made again.
pub open spec fn is_done<W>(result: Result<ConnectStep<W>, EndpointError>) -> Result<
    bool,
    EndpointError,
> {
    match result {
        Ok(step) => Ok(step is Done),
        Err(error) => Err(error),
    }
}

/// The numbers are those of the connections, in rising order.
pub open spec fn keys_of<W: Wire>(keys: Seq<u64>, view: EndpointView<W>) -> bool {
    &&& forall|i: int, j: int| 0 <= i < j < keys.len() ==> keys[i] < keys[j]
    &&& forall|key: u64| #[trigger]
        keys.contains(key) <==> view.connections.contains_key(key)
}

/// A timer of the connection is due at this time.
pub open spec fn due_at<W: Wire>(runtime: RuntimeView<W>, at: nat) -> bool {
    exists|left: nat| #[trigger]
        time_left(runtime.core, left) && at == lesser(
            (runtime.last_advanced_at@ + left) as int,
            MAX_NANOS as int,
        )
}

/// No timer of the connection is due before this time.
pub open spec fn not_due_before<W: Wire>(runtime: RuntimeView<W>, at: nat) -> bool {
    ||| runtime.core.timers.timers.dom().len() == 0
    ||| exists|other: nat| #[trigger] due_at(runtime, other) && at <= other
}

/// A handshake in which nothing has happened yet.
spec fn some_handshake(id: ConnectionId, key: Seq<u8>, config: ConnectionConfig) -> HandshakeView {
    HandshakeView {
        connection_id: id,
        public_key: key,
        local_nonce: Seq::empty(),
        client_nonce: None,
        peer_client_nonce: None,
        peer_cookie: Seq::empty(),
        frame: None,
        transcript_hash: None,
        has_keys: false,
        retries: 0,
        peer_max_streams: config.max_streams,
        peer_initial_stream_window: config.initial_stream_window,
    }
}

proof fn lemma_server_made<W: Wire>(
    config: ConnectionConfig,
    given: ConnectionConfig,
    id: ConnectionId,
    wire: W,
    key: [u8; 32],
    result: Result<Connection, CoreError>,
)
    requires
        given.same_as(&config),
        call_ensures(W::public_key, (&wire,), key),
        match connection_config_error(given) {
            Some(problem) => result == Err::<Connection, CoreError>(
                CoreError::InvalidConfig(problem),
            ),
            None => result == Err::<Connection, CoreError>(CoreError::RandomnessUnavailable)
                || exists|handshake: HandshakeView| #[trigger]
                fresh_handshake(handshake, id, key@, given) && match result {
                    Ok(connection) => start_refused(given) is None && started(
                        connection@,
                        ConnectionRole::Server,
                        id,
                        given,
                        handshake,
                    ),
                    Err(error) => start_refused(given) == Some(error),
                },
        },
    ensures
        server_made(config, id, wire, spec_made(result)),
{
    if connection_config_error(given) is Some {
        assert(fresh_handshake(some_handshake(id, key@, given), id, key@, given));
    }
}

proof fn lemma_client_made<W: Wire>(
    config: ConnectionConfig,
    given: ConnectionConfig,
    id: ConnectionId,
    wire: W,
    key: [u8; 32],
    result: Result<Connection, CoreError>,
)
    requires
        given.same_as(&config),
        call_ensures(W::public_key, (&wire,), key),
        match connection_config_error(given) {
            Some(problem) => result == Err::<Connection, CoreError>(
                CoreError::InvalidConfig(problem),
            ),
            None => result == Err::<Connection, CoreError>(CoreError::RandomnessUnavailable)
                || exists|handshake: HandshakeView| #[trigger]
                fresh_handshake(handshake, id, key@, given) && client_started(
                    &wire,
                    id,
                    given,
                    handshake,
                    spec_made(result),
                ),
        },
    ensures
        client_made(config, id, wire, spec_made(result)),
{
    if connection_config_error(given) is Some {
        let handshake = some_handshake(id, key@, given);
        assert(fresh_handshake(handshake, id, key@, given));
        assert(client_started(&wire, id, given, handshake, spec_made(result)));
    }
}

/// What is taken out and put back changes only itself.
proof fn lemma_taken_and_put_back<W: Wire>(
    before: EndpointView<W>,
    without: EndpointView<W>,
    key: u64,
    processed: RuntimeView<W>,
)
    requires
        without == (EndpointView { connections: before.connections.remove(key), ..before }),
    ensures
        with_runtime(without, key, processed) == with_runtime(before, key, processed),
{
    assert(before.connections.remove(key).remove(key) =~= before.connections.remove(key));
    let kept = RuntimeView { actions: Seq::empty(), ..processed };
    assert(before.connections.remove(key).insert(key, kept) =~= before.connections.insert(
        key,
        kept,
    ));
}

proof fn lemma_delivered_without<W: Wire>(
    before: EndpointView<W>,
    without: EndpointView<W>,
    key: u64,
    runtime: RuntimeView<W>,
    bytes: &[u8],
    slot_free: bool,
    after: EndpointView<W>,
    result: Result<(), EndpointError>,
)
    requires
        without == (EndpointView { connections: before.connections.remove(key), ..before }),
        delivered_to(without, key, runtime, bytes, slot_free, after, result),
    ensures
        delivered_to(before, key, runtime, bytes, slot_free, after, result),
{
    let processed = choose|processed: RuntimeView<W>| #[trigger]
        received(runtime, bytes, without.config.max_send_batch, slot_free, processed, result)
            && after == with_runtime(without, key, processed);
    lemma_taken_and_put_back(before, without, key, processed);
    assert(received(
        runtime,
        bytes,
        before.config.max_send_batch,
        slot_free,
        processed,
        result,
    ));
}

/// An error among the connections stops time.
proof fn lemma_times_stop<W: Wire>(
    before: EndpointView<W>,
    keys: Seq<u64>,
    count: int,
    end: int,
    slot_free: bool,
    after: EndpointView<W>,
    result: Result<(), EndpointError>,
)
    requires
        0 <= count <= end,
        result is Err,
        times_done(before, keys, count, slot_free, after, result),
    ensures
        times_done(before, keys, end, slot_free, after, result),
    decreases end - count,
{
    if count < end {
        let next = count + 1;
        assert(advance_follows(after, result, keys[next - 1], slot_free, after, result));
        assert(times_done(before, keys, next, slot_free, after, result));
        lemma_times_stop(before, keys, count + 1, end, slot_free, after, result);
    }
}

} // verus!
