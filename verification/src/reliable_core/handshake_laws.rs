//! What the two sides agree on before they send data.

use vstd::prelude::*;

use crate::reliable_core::config::{ConnectionConfig, ConnectionRole};
use crate::reliable_core::connection::Connection;
use crate::reliable_core::connection_laws::{lemma_rings, rings_for};
use crate::reliable_core::error::CoreError;
use crate::reliable_core::event::{ConnectionState, OutputView};
use crate::reliable_core::handshake::HandshakeView;
use crate::reliable_core::layout::{
    answers_client, answers_server, asks_for_client, asks_for_server, verifies,
};
use crate::reliable_core::timer::TimerEvent;
use crate::reliable_core::transition::{
    client_greeted, client_hello_done, frame_done, handshake_ack_done, layout_written,
    server_hello_done, started, ConnectionView,
};
use crate::wire::{
    ClientHelloView, ConnectionId, CryptoError, FrameView, KeyExchange, KeyRequest, Packet,
    PacketType, ProtocolError, ServerHelloView, Wire,
};

verus! {

/// The streams that both sides allow: no more than either of the two numbers, and
/// one of them.
pub open spec fn is_least(least: int, left: int, right: int) -> bool {
    least <= left && least <= right && (least == left || least == right)
}

/// The hello of a client tells the server the client's nonce, key, limits and cookie
/// as they are; the client sends it again until it is answered.
pub proof fn law_client_greets_with_its_own(
    before: ConnectionView,
    after: ConnectionView,
    result: Result<(), CoreError>,
)
    requires
        before.config.max_datagram_size <= u16::MAX,
        client_greeted(before, after, result),
    ensures
        after.transport.pending.len() == before.transport.pending.len() + 1,
        after.handshake.frame == Some(after.transport.pending.last().frame),
        after.handshake.client_nonce == Some(before.handshake.local_nonce),
        after.transport.pending.last().frame is ClientHello,
        ({
            let hello = after.transport.pending.last().frame->ClientHello_0;
            &&& hello.client_nonce == before.handshake.local_nonce
            &&& hello.client_public_key == before.handshake.public_key
            &&& hello.max_datagram_size == before.config.max_datagram_size
            &&& hello.max_streams == before.config.max_streams
            &&& hello.initial_connection_window == before.config.initial_connection_window
            &&& hello.initial_stream_window == before.config.initial_stream_window
            &&& hello.cookie == before.config.handshake_cookie@
        }),
        result is Ok ==> after.timers.handshake is Some && rings_for(
            before.timers,
            after.timers,
            after.timers.handshake->0,
            TimerEvent::HandshakeTimeout,
            before.config.handshake_timeout,
        ),
{
    if result is Ok {
        lemma_rings(
            before.timers,
            after.timers,
            after.timers.handshake->0,
            TimerEvent::HandshakeTimeout,
            before.config.handshake_timeout,
        );
    }
}

/// What a frame that is taken makes of a connection.
pub open spec fn came_of<W: Wire>(
    wire: &W,
    before: ConnectionView,
    packet_type: PacketType,
    frame: FrameView,
    after: ConnectionView,
) -> bool {
    frame_done(wire, before, packet_type, frame, after, Ok(()))
}

/// A server that takes the hello of a client answers it with its own nonce, key and
/// limits and with the client's cookie. It sends no larger datagrams than the client
/// takes, no more bytes than the client allows, opens no more streams than both
/// allow, and from then on reads what is sealed. The connection is being made.
pub proof fn law_server_answers_the_hello<W: Wire>(
    wire: &W,
    before: ConnectionView,
    packet_type: PacketType,
    hello: ClientHelloView,
    after: ConnectionView,
)
    requires
        before.state != ConnectionState::Established,
        before.config.max_datagram_size <= u16::MAX,
        came_of(wire, before, packet_type, FrameView::ClientHello(hello), after),
    ensures
        before.role == ConnectionRole::Server,
        packet_type == PacketType::Initial,
        before.handshake.peer_client_nonce is None || before.handshake.peer_client_nonce == Some(
            hello.client_nonce,
        ),
        after.handshake.peer_client_nonce == Some(hello.client_nonce),
        after.handshake.peer_cookie == hello.cookie,
        is_least(
            after.config.max_datagram_size as int,
            before.config.max_datagram_size as int,
            hello.max_datagram_size as int,
        ),
        is_least(
            after.handshake.peer_max_streams as int,
            before.handshake.peer_max_streams as int,
            hello.max_streams as int,
        ),
        after.handshake.peer_initial_stream_window == hello.initial_stream_window,
        after.send.connection_max_offset == hello.initial_connection_window,
        after.crypto_active,
        after.handshake.has_keys,
        before.state == ConnectionState::Idle ==> after.state == ConnectionState::Handshaking,
        before.state != ConnectionState::Idle ==> after.state == before.state,
        after.transport.pending.len() == before.transport.pending.len() + 1,
        after.handshake.frame == Some(after.transport.pending.last().frame),
        after.transport.pending.last().frame is ServerHello,
        ({
            let answer = after.transport.pending.last().frame->ServerHello_0;
            &&& answer.server_nonce == before.handshake.local_nonce
            &&& answer.server_public_key == before.handshake.public_key
            &&& answer.max_datagram_size == after.config.max_datagram_size
            &&& is_least(
                answer.max_streams as int,
                before.config.max_streams as int,
                after.handshake.peer_max_streams as int,
            )
            &&& answer.initial_connection_window == before.config.initial_connection_window
            &&& answer.initial_stream_window == before.config.initial_stream_window
            &&& answer.cookie == hello.cookie
        }),
        before.state == ConnectionState::Idle ==> after.timers.handshake is Some && rings_for(
            before.timers,
            after.timers,
            after.timers.handshake->0,
            TimerEvent::HandshakeTimeout,
            before.config.handshake_timeout,
        ),
{
    if before.state == ConnectionState::Idle {
        lemma_rings(
            before.timers,
            after.timers,
            after.timers.handshake->0,
            TimerEvent::HandshakeTimeout,
            before.config.handshake_timeout,
        );
    }
}

/// A hello in the wrong packet, to a client, or of another client than the one that
/// the handshake is with, is refused and changes nothing.
pub proof fn law_strange_hello_is_refused<W: Wire>(
    wire: &W,
    before: ConnectionView,
    packet_type: PacketType,
    hello: ClientHelloView,
    after: ConnectionView,
    result: Result<(), CoreError>,
)
    requires
        frame_done(wire, before, packet_type, FrameView::ClientHello(hello), after, result),
        before.role == ConnectionRole::Client || packet_type != PacketType::Initial || (
        before.handshake.peer_client_nonce is Some && before.handshake.peer_client_nonce->0
            != hello.client_nonce),
    ensures
        result is Err,
        after == before,
{
}

/// A client that takes the answer of the server is established. It acknowledges the
/// answer with the server's cookie, keeps to the limits that the server gave, seals
/// what it sends, and no longer sends its hello again.
pub proof fn law_client_is_established_by_the_answer<W: Wire>(
    wire: &W,
    before: ConnectionView,
    packet_type: PacketType,
    hello: ServerHelloView,
    after: ConnectionView,
)
    requires
        came_of(wire, before, packet_type, FrameView::ServerHello(hello), after),
    ensures
        before.role == ConnectionRole::Client,
        packet_type == PacketType::Handshake,
        before.state == ConnectionState::Handshaking,
        after.state == ConnectionState::Established,
        after.output == before.output.push(
            OutputView::ConnectionStateChanged(ConnectionState::Established),
        ),
        after.crypto_active,
        after.timers.handshake is None,
        before.timers.handshake is Some ==> !after.timers.timers.contains_key(
            before.timers.handshake->0.value(),
        ),
        is_least(
            after.config.max_datagram_size as int,
            before.config.max_datagram_size as int,
            hello.max_datagram_size as int,
        ),
        is_least(
            after.handshake.peer_max_streams as int,
            before.handshake.peer_max_streams as int,
            hello.max_streams as int,
        ),
        after.handshake.peer_initial_stream_window == hello.initial_stream_window,
        after.send.connection_max_offset == hello.initial_connection_window,
        after.transport.pending.len() == before.transport.pending.len() + 1,
        after.transport.pending.last().frame is HandshakeAck,
        after.transport.pending.last().frame->HandshakeAck_cookie == hello.cookie,
{
}

/// A server whose answer is acknowledged with the right cookie and proof is
/// established, and no longer sends its answer again. With another cookie, in
/// another packet or at another time the acknowledgement is refused.
pub proof fn law_server_is_established_by_the_acknowledgement<W: Wire>(
    wire: &W,
    before: ConnectionView,
    packet_type: PacketType,
    cookie: Seq<u8>,
    client_finished: Seq<u8>,
    after: ConnectionView,
    result: Result<(), CoreError>,
)
    requires
        frame_done(
            wire,
            before,
            packet_type,
            FrameView::HandshakeAck { cookie, client_finished },
            after,
            result,
        ),
    ensures
        result is Ok ==> {
            &&& before.role == ConnectionRole::Server
            &&& packet_type == PacketType::Handshake
            &&& before.state == ConnectionState::Handshaking
            &&& cookie == before.handshake.peer_cookie
            &&& before.handshake.has_keys
            &&& after.state == ConnectionState::Established
            &&& after.output == before.output.push(
                OutputView::ConnectionStateChanged(ConnectionState::Established),
            )
            &&& after.crypto_active
            &&& after.timers.handshake is None
            &&& before.timers.handshake is Some ==> !after.timers.timers.contains_key(
                before.timers.handshake->0.value(),
            )
            &&& after.streams == before.streams
            &&& after.transport == before.transport
        },
        result is Err ==> after == before,
        cookie != before.handshake.peer_cookie ==> result == Err::<(), CoreError>(
            CoreError::InvalidPacketType,
        ),
{
}

/// A client that is asked to try again sends its hello again with the cookie it was
/// given, ahead of all that waits.
pub proof fn law_retry_repeats_the_hello_with_the_cookie<W: Wire>(
    wire: &W,
    before: ConnectionView,
    packet_type: PacketType,
    cookie: Seq<u8>,
    after: ConnectionView,
    result: Result<(), CoreError>,
)
    requires
        frame_done(wire, before, packet_type, FrameView::Retry { cookie }, after, result),
    ensures
        result is Ok ==> {
            &&& before.role == ConnectionRole::Client
            &&& packet_type == PacketType::Retry
            &&& before.state == ConnectionState::Handshaking
            &&& 0 < cookie.len() <= before.config.limits.max_cookie_len
            &&& after.state == before.state
            &&& after.config.handshake_cookie@ == cookie
            &&& after.config.max_streams == before.config.max_streams
            &&& after.transport.pending.len() == before.transport.pending.len() + 1
            &&& after.transport.pending.drop_first() == before.transport.pending
            &&& after.transport.pending[0].frame is ClientHello
            &&& after.transport.pending[0].frame->ClientHello_0.cookie == cookie
            &&& after.transport.pending[0].frame->ClientHello_0.client_nonce
                == before.handshake.local_nonce
            &&& after.transport.pending[0].frame->ClientHello_0.client_public_key
                == before.handshake.public_key
            &&& after.handshake.frame == Some(after.transport.pending[0].frame)
        },
        before.role != ConnectionRole::Client || packet_type != PacketType::Retry || before.state
            != ConnectionState::Handshaking || cookie.len() == 0 || cookie.len()
            > before.config.limits.max_cookie_len ==> result == Err::<(), CoreError>(
            CoreError::InvalidPacketType,
        ) && after == before,
{
    if result is Ok {
        assert(after.transport.pending.drop_first() =~= before.transport.pending);
    }
}

/// The two sides agree: once the server has answered the hello of a client and the
/// client has taken the answer, both send datagrams of the same size at most and
/// allow the same number of streams, and each may send as much as the other allows.
pub proof fn law_both_sides_agree<W: Wire>(
    wire: &W,
    client: ConnectionView,
    greeted: ConnectionView,
    greeting: Result<(), CoreError>,
    server: ConnectionView,
    answered: ConnectionView,
    taken: ConnectionView,
)
    requires
        client.config.max_datagram_size <= u16::MAX,
        server.config.max_datagram_size <= u16::MAX,
        client.handshake.peer_max_streams == client.config.max_streams,
        server.handshake.peer_max_streams == server.config.max_streams,
        client_greeted(client, greeted, greeting),
        server.state == ConnectionState::Idle,
        came_of(
            wire,
            server,
            PacketType::Initial,
            greeted.transport.pending.last().frame,
            answered,
        ),
        came_of(
            wire,
            greeted,
            PacketType::Handshake,
            answered.transport.pending.last().frame,
            taken,
        ),
    ensures
        taken.config.max_datagram_size == answered.config.max_datagram_size,
        is_least(
            taken.config.max_datagram_size as int,
            client.config.max_datagram_size as int,
            server.config.max_datagram_size as int,
        ),
        is_least(
            taken.handshake.peer_max_streams as int,
            client.config.max_streams as int,
            server.config.max_streams as int,
        ),
        taken.handshake.peer_max_streams == answered.handshake.peer_max_streams,
        taken.send.connection_max_offset == server.config.initial_connection_window,
        answered.send.connection_max_offset == client.config.initial_connection_window,
        taken.handshake.peer_initial_stream_window == server.config.initial_stream_window,
        answered.handshake.peer_initial_stream_window == client.config.initial_stream_window,
        taken.transport.pending.last().frame->HandshakeAck_cookie == answered.handshake.peer_cookie,
{
}

/// A connection starts with nothing sent or received, no stream, and the limits of
/// its configuration; a client is in the handshake at once, a server waits for one.
/// The two sides number their streams apart.
pub proof fn law_connection_starts_empty(
    view: ConnectionView,
    role: ConnectionRole,
    id: ConnectionId,
    config: ConnectionConfig,
    handshake: HandshakeView,
    parity: u64,
    other_role: ConnectionRole,
    other_parity: u64,
)
    requires
        started(view, role, id, config, handshake),
        call_ensures(ConnectionRole::local_stream_parity, (role,), parity),
        call_ensures(ConnectionRole::local_stream_parity, (other_role,), other_parity),
    ensures
        view.role == role,
        view.id == id,
        view.config == config,
        view.state == ConnectionState::Handshaking <==> role == ConnectionRole::Client,
        view.state == ConnectionState::Idle <==> role == ConnectionRole::Server,
        view.now@ == 0,
        view.streams.dom().is_empty(),
        view.next_stream == parity,
        parity < 2,
        role != other_role ==> parity % 2 != other_parity % 2,
        view.output.len() == 0,
        !view.crypto_active,
        view.close_error is None,
        view.transport.next_packet_number == 0,
        view.transport.pending.len() == 0,
        view.transport.sent.dom().is_empty(),
        view.transport.held.len() == 0,
        view.transport.congestion.bytes_in_flight == 0,
        view.transport.rtt.rto == config.initial_rto,
        view.send.connection_max_offset == config.initial_connection_window,
        view.receive.max_offset == config.initial_connection_window,
        view.timers.idle is Some,
        view.timers.timers.contains_key(view.timers.idle->0.value()),
        config.keepalive_interval is Some ==> view.timers.keepalive is Some
            && view.timers.timers.contains_key(view.timers.keepalive->0.value())
            && view.timers.timers[view.timers.keepalive->0.value()].item == TimerEvent::Keepalive,
{
}

/// What is sealed is read only once keys are there, and data is sealed from the
/// moment that the connection is established.
pub proof fn law_data_is_sealed_once_established(
    connection: &Connection,
    sealed_data: bool,
    sealed_close: bool,
    sealed_first: bool,
    sealed_handshake: bool,
    taken: Result<(), CoreError>,
    open_taken: Result<(), CoreError>,
)
    requires
        call_ensures(Connection::encrypts, (connection, PacketType::Data), sealed_data),
        call_ensures(Connection::encrypts, (connection, PacketType::Close), sealed_close),
        call_ensures(Connection::encrypts, (connection, PacketType::Initial), sealed_first),
        call_ensures(Connection::encrypts, (connection, PacketType::Handshake), sealed_handshake),
        call_ensures(Connection::accepts_flags, (connection, true), taken),
        call_ensures(Connection::accepts_flags, (connection, false), open_taken),
    ensures
        connection@.crypto_active && connection@.state == ConnectionState::Established
            ==> sealed_data && sealed_close,
        connection@.crypto_active && connection@.state == ConnectionState::Closing ==> sealed_close,
        !connection@.crypto_active ==> !sealed_data && !sealed_close && taken is Err,
        connection@.crypto_active ==> taken is Ok,
        !sealed_first,
        !sealed_handshake,
        open_taken is Ok,
{
}

/// The bytes of a packet of data are sealed on an established connection with keys,
/// and laid out as they are in the handshake.
pub proof fn law_packet_is_laid_out_as_its_type_asks<W: Wire>(
    wire: &W,
    connection: &Connection,
    packet: &Packet,
    result: Result<Vec<u8>, CoreError>,
)
    requires
        call_ensures(Connection::encode_packet::<W>, (connection, packet, wire), result),
    ensures
        connection@.crypto_active && connection@.state == ConnectionState::Established
            && packet.packet_type == PacketType::Data ==> exists|
            encoded: Result<Vec<u8>, ProtocolError>,
        |
            {
                &&& #[trigger] call_ensures(
                    W::encode_sealed,
                    (wire, packet, connection@.config.max_datagram_size),
                    encoded,
                )
                &&& result is Ok <==> encoded is Ok
                &&& encoded is Ok ==> result->Ok_0 == encoded->Ok_0
            },
        packet.packet_type == PacketType::Initial || packet.packet_type == PacketType::Handshake
            || !connection@.crypto_active ==> exists|encoded: Result<Vec<u8>, ProtocolError>|
            {
                &&& #[trigger] call_ensures(
                    W::encode,
                    (wire, packet, connection@.config.max_datagram_size),
                    encoded,
                )
                &&& result is Ok <==> encoded is Ok
                &&& encoded is Ok ==> result->Ok_0 == encoded->Ok_0
            },
{
    let encoded = choose|encoded: Result<Vec<u8>, ProtocolError>| #[trigger]
        layout_written(connection@, packet, wire, encoded) && result == match encoded {
            Ok(bytes) => Ok::<Vec<u8>, CoreError>(bytes),
            Err(problem) => Err::<Vec<u8>, CoreError>(CoreError::Protocol(problem)),
        };
    assert(call_ensures(
        W::encode_sealed,
        (wire, packet, connection@.config.max_datagram_size),
        encoded,
    ) || call_ensures(W::encode, (wire, packet, connection@.config.max_datagram_size), encoded));
}

/// A server that answers a hello has asked for keys with the client's nonce and key
/// and its own nonce, and proves in its answer that it has them.
pub proof fn law_server_makes_keys_with_its_client<W: Wire>(
    wire: &W,
    before: ConnectionView,
    packet_type: PacketType,
    hello: ClientHelloView,
    after: ConnectionView,
)
    requires
        came_of(wire, before, packet_type, FrameView::ClientHello(hello), after),
    ensures
        exists|request: KeyRequest, keys: KeyExchange|
            {
                &&& #[trigger] call_ensures(
                    W::exchange,
                    (wire, &request),
                    Ok::<KeyExchange, CryptoError>(keys),
                )
                &&& request is AnswerClient
                &&& request->AnswerClient_connection_id == before.handshake.connection_id
                &&& request->AnswerClient_client_nonce@ == hello.client_nonce
                &&& request->AnswerClient_server_nonce@ == before.handshake.local_nonce
                &&& request->AnswerClient_client_public_key@ == hello.client_public_key
                &&& after.handshake.transcript_hash == Some(keys.transcript_hash@)
                &&& after.transport.pending.last().frame->ServerHello_0.server_finished
                    == keys.finished@
            },
{
    let exchange = choose|exchange: Result<KeyExchange, CryptoError>| #[trigger]
        client_hello_done(before, hello, exchange, after, Ok(())) && answers_client(
            wire,
            before.handshake,
            hello,
            exchange,
        );
    let request = choose|request: KeyRequest|
        asks_for_client(request, before.handshake, hello) && #[trigger] call_ensures(
            W::exchange,
            (wire, &request),
            exchange,
        );
    assert(call_ensures(
        W::exchange,
        (wire, &request),
        Ok::<KeyExchange, CryptoError>(exchange->Ok_0),
    ));
}

/// A client that takes the answer of a server has asked for keys with the server's
/// nonce, key and proof and its own nonce, and proves in turn that it has them.
pub proof fn law_client_makes_keys_with_its_server<W: Wire>(
    wire: &W,
    before: ConnectionView,
    packet_type: PacketType,
    hello: ServerHelloView,
    after: ConnectionView,
)
    requires
        came_of(wire, before, packet_type, FrameView::ServerHello(hello), after),
    ensures
        exists|request: KeyRequest, keys: KeyExchange|
            {
                &&& #[trigger] call_ensures(
                    W::exchange,
                    (wire, &request),
                    Ok::<KeyExchange, CryptoError>(keys),
                )
                &&& request is AnswerServer
                &&& request->AnswerServer_connection_id == before.handshake.connection_id
                &&& Some(request->AnswerServer_client_nonce@) == before.handshake.client_nonce
                &&& request->AnswerServer_server_nonce@ == hello.server_nonce
                &&& request->AnswerServer_server_public_key@ == hello.server_public_key
                &&& request->AnswerServer_server_finished@ == hello.server_finished
                &&& after.transport.pending.last().frame->HandshakeAck_client_finished
                    == keys.finished@
            },
{
    let exchange = choose|exchange: Result<KeyExchange, CryptoError>| #[trigger]
        server_hello_done(before, hello, exchange, after, Ok(())) && answers_server(
            wire,
            before.handshake,
            hello,
            exchange,
        );
    let request = choose|request: KeyRequest|
        asks_for_server(request, before.handshake, hello) && #[trigger] call_ensures(
            W::exchange,
            (wire, &request),
            exchange,
        );
    assert(call_ensures(
        W::exchange,
        (wire, &request),
        Ok::<KeyExchange, CryptoError>(exchange->Ok_0),
    ));
}

/// A server is established only by a proof that was checked against what both sides
/// have said.
pub proof fn law_proof_of_the_client_is_checked<W: Wire>(
    wire: &W,
    before: ConnectionView,
    packet_type: PacketType,
    cookie: Seq<u8>,
    client_finished: Seq<u8>,
    after: ConnectionView,
)
    requires
        came_of(
            wire,
            before,
            packet_type,
            FrameView::HandshakeAck { cookie, client_finished },
            after,
        ),
    ensures
        exists|hash: [u8; 32], finished: [u8; 32]|
            {
                &&& #[trigger] call_ensures(
                    W::verify_client,
                    (wire, &hash, &finished),
                    Ok::<(), CryptoError>(()),
                )
                &&& before.handshake.transcript_hash == Some(hash@)
                &&& finished@ == client_finished
            },
{
    let verified = choose|verified: Result<(), CryptoError>| #[trigger]
        handshake_ack_done(before, verified, after, Ok(())) && verifies(
            wire,
            before.handshake,
            client_finished,
            verified,
        );
    assert(verified->Ok_0 == ());
}

} // verus!
