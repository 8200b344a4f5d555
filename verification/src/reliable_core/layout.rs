//! What the layout of packets and the key exchange were asked, and answered.

use vstd::prelude::*;

use crate::reliable_core::handshake::HandshakeView;
use crate::wire::{
    AckFrame, AckView, ClientHelloView, CryptoError, Frame, FrameView, KeyExchange, KeyRequest,
    Packet, PacketView, ProtocolError, ServerHelloView, Wire,
};

verus! {

/// The answer to whether a frame asks for an acknowledgement.
pub open spec fn elicits<W: Wire>(wire: &W, frame: FrameView, answer: bool) -> bool {
    exists|given: Frame|
        given@ == frame && #[trigger] call_ensures(W::is_ack_eliciting, (wire, &given), answer)
}

/// The answer to whether one of the frames asks for an acknowledgement.
pub open spec fn some_elicits<W: Wire>(wire: &W, frames: Seq<FrameView>, answer: bool) -> bool {
    if answer {
        exists|i: int| 0 <= i < frames.len() && elicits(wire, #[trigger] frames[i], true)
    } else {
        forall|i: int| 0 <= i < frames.len() ==> elicits(wire, #[trigger] frames[i], false)
    }
}

/// The answer to how long a packet is once it is laid out.
pub open spec fn measures<W: Wire>(
    wire: &W,
    packet: PacketView,
    limit: usize,
    answer: Result<usize, ProtocolError>,
) -> bool {
    exists|given: Packet|
        given@ == packet && #[trigger] call_ensures(W::encoded_len, (wire, &given, limit), answer)
}

/// The answer to whether an acknowledgement is sound.
pub open spec fn checks<W: Wire>(
    wire: &W,
    ack: AckView,
    answer: Result<(), ProtocolError>,
) -> bool {
    exists|given: AckFrame|
        given@ == ack && #[trigger] call_ensures(W::check_ack, (wire, &given), answer)
}

/// The step of the key exchange that the hello of a client asks for.
pub open spec fn asks_for_client(
    request: KeyRequest,
    handshake: HandshakeView,
    hello: ClientHelloView,
) -> bool {
    request matches KeyRequest::AnswerClient {
        connection_id,
        client_nonce,
        server_nonce,
        client_public_key,
    } && connection_id == handshake.connection_id && client_nonce@ == hello.client_nonce
        && server_nonce@ == handshake.local_nonce && client_public_key@ == hello.client_public_key
}

/// What the key exchange gave for the hello of a client.
pub open spec fn answers_client<W: Wire>(
    wire: &W,
    handshake: HandshakeView,
    hello: ClientHelloView,
    answer: Result<KeyExchange, CryptoError>,
) -> bool {
    exists|request: KeyRequest|
        asks_for_client(request, handshake, hello) && #[trigger] call_ensures(
            W::exchange,
            (wire, &request),
            answer,
        )
}

/// The step of the key exchange that the hello of a server asks for.
pub open spec fn asks_for_server(
    request: KeyRequest,
    handshake: HandshakeView,
    hello: ServerHelloView,
) -> bool {
    request matches KeyRequest::AnswerServer {
        connection_id,
        client_nonce,
        server_nonce,
        server_public_key,
        server_finished,
    } && connection_id == handshake.connection_id && handshake.client_nonce == Some(client_nonce@)
        && server_nonce@ == hello.server_nonce && server_public_key@ == hello.server_public_key
        && server_finished@ == hello.server_finished
}

/// What the key exchange gave for the hello of a server.
pub open spec fn answers_server<W: Wire>(
    wire: &W,
    handshake: HandshakeView,
    hello: ServerHelloView,
    answer: Result<KeyExchange, CryptoError>,
) -> bool {
    exists|request: KeyRequest|
        asks_for_server(request, handshake, hello) && #[trigger] call_ensures(
            W::exchange,
            (wire, &request),
            answer,
        )
}

/// The answer to whether a client has proved that it holds the keys.
pub open spec fn verifies<W: Wire>(
    wire: &W,
    handshake: HandshakeView,
    client_finished: Seq<u8>,
    answer: Result<(), CryptoError>,
) -> bool {
    exists|hash: [u8; 32], finished: [u8; 32]|
        handshake.transcript_hash == Some(hash@) && finished@ == client_finished
            && #[trigger] call_ensures(W::verify_client, (wire, &hash, &finished), answer)
}

} // verus!
