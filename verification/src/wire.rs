//! Packets and frames as values. How they are laid out in a datagram, and the
//! key exchange, are left to the implementor of [`Wire`].

use vstd::prelude::*;

use crate::bytes::copy_bytes;
use crate::duration::Duration;

verus! {

/// Number of a packet within one direction of a connection.
#[derive(Debug, Clone, Copy, PartialEq, Eq, Structural, Hash)]
pub struct PacketNumber {
    pub value: u64,
}

impl PacketNumber {
    /// The packet number `value`.
    pub fn new(value: u64) -> (number: PacketNumber)
        ensures
            number.value == value,
    {
        PacketNumber { value }
    }

    /// The number itself.
    pub fn raw(self) -> (value: u64)
        ensures
            value == self.value,
    {
        self.value
    }
}

/// Name of a stream within a connection.
#[derive(Debug, Clone, Copy, PartialEq, Eq, Structural, Hash)]
pub struct StreamId {
    pub value: u64,
}

impl StreamId {
    /// The stream with this number.
    pub fn new(value: u64) -> (id: StreamId)
        ensures
            id.value == value,
    {
        StreamId { value }
    }

    /// The number itself.
    pub fn raw(self) -> (value: u64)
        ensures
            value == self.value,
    {
        self.value
    }
}

/// Name of a connection.
#[derive(Debug, Clone, Copy, PartialEq, Eq, Structural, Hash)]
pub struct ConnectionId {
    pub value: u64,
}

impl ConnectionId {
    /// The connection with this number.
    pub fn new(value: u64) -> (id: ConnectionId)
        ensures
            id.value == value,
    {
        ConnectionId { value }
    }

    /// The number itself.
    pub fn raw(self) -> (value: u64)
        ensures
            value == self.value,
    {
        self.value
    }
}

/// What a packet is for.
#[derive(Debug, Clone, Copy, PartialEq, Eq, Structural)]
pub enum PacketType {
    Initial,
    Handshake,
    Retry,
    Data,
    Close,
}

/// Flags in the header of a packet.
#[derive(Debug, Clone, Copy, PartialEq, Eq, Structural)]
pub struct PacketFlags {
    pub ack_eliciting: bool,
    pub encrypted: bool,
}

/// Packet numbers from `start` to `end`, both included.
#[derive(Debug, Clone, Copy, PartialEq, Eq, Structural)]
pub struct AckRange {
    pub start: PacketNumber,
    pub end: PacketNumber,
}

/// First message of a client.
#[derive(Debug, Clone, PartialEq, Eq)]
pub struct ClientHello {
    pub client_nonce: [u8; 16],
    pub client_public_key: [u8; 32],
    pub max_datagram_size: u16,
    pub max_streams: u32,
    pub initial_connection_window: u64,
    pub initial_stream_window: u64,
    pub cookie: Vec<u8>,
}

/// Answer of a server to [`ClientHello`].
#[derive(Debug, Clone, PartialEq, Eq)]
pub struct ServerHello {
    pub server_nonce: [u8; 16],
    pub server_public_key: [u8; 32],
    pub server_finished: [u8; 32],
    pub max_datagram_size: u16,
    pub max_streams: u32,
    pub initial_connection_window: u64,
    pub initial_stream_window: u64,
    pub cookie: Vec<u8>,
}

/// Last message of the handshake.
#[derive(Debug, Clone, PartialEq, Eq)]
pub struct HandshakeAck {
    pub cookie: Vec<u8>,
    pub client_finished: [u8; 32],
}

/// Asks the client to begin again with a cookie.
#[derive(Debug, Clone, PartialEq, Eq)]
pub struct Retry {
    pub cookie: Vec<u8>,
}

/// Acknowledges packets.
#[derive(Debug, Clone, PartialEq, Eq)]
pub struct AckFrame {
    pub largest: PacketNumber,
    pub ack_delay: Duration,
    pub ranges: Vec<AckRange>,
}

/// Opens a stream.
#[derive(Debug, Clone, Copy, PartialEq, Eq, Structural)]
pub struct StreamOpen {
    pub stream_id: StreamId,
    pub initial_receive_window: u64,
    pub bidirectional: bool,
}

/// Bytes of a stream.
#[derive(Debug, Clone, PartialEq, Eq)]
pub struct StreamData {
    pub stream_id: StreamId,
    pub offset: u64,
    pub fin: bool,
    pub data: Vec<u8>,
}

/// Ends a stream with an error.
#[derive(Debug, Clone, Copy, PartialEq, Eq, Structural)]
pub struct ResetStream {
    pub stream_id: StreamId,
    pub error_code: u32,
}

/// Raises how far a stream may be sent.
#[derive(Debug, Clone, Copy, PartialEq, Eq, Structural)]
pub struct MaxStreamData {
    pub stream_id: StreamId,
    pub max_offset: u64,
}

/// Raises how much may be sent on the connection.
#[derive(Debug, Clone, Copy, PartialEq, Eq, Structural)]
pub struct MaxData {
    pub max_offset: u64,
}

/// Asks for a [`Pong`].
#[derive(Debug, Clone, Copy, PartialEq, Eq, Structural)]
pub struct Ping {
    pub nonce: u64,
}

/// Answers a [`Ping`].
#[derive(Debug, Clone, Copy, PartialEq, Eq, Structural)]
pub struct Pong {
    pub nonce: u64,
}

/// Ends the connection.
#[derive(Debug, Clone, PartialEq, Eq)]
pub struct ConnectionClose {
    pub error_code: u32,
    pub frame_type: u64,
    pub reason: String,
}

/// One message in a packet.
#[derive(Debug, Clone, PartialEq, Eq)]
pub enum Frame {
    ClientHello(ClientHello),
    ServerHello(ServerHello),
    HandshakeAck(HandshakeAck),
    Retry(Retry),
    Ack(AckFrame),
    StreamOpen(StreamOpen),
    StreamData(StreamData),
    ResetStream(ResetStream),
    MaxStreamData(MaxStreamData),
    MaxData(MaxData),
    Ping(Ping),
    Pong(Pong),
    ConnectionClose(ConnectionClose),
}

/// A packet before it is laid out in a datagram.
#[derive(Debug, Clone, PartialEq, Eq)]
pub struct Packet {
    pub packet_type: PacketType,
    pub flags: PacketFlags,
    pub connection_id: ConnectionId,
    pub packet_number: PacketNumber,
    pub frames: Vec<Frame>,
}

/// Why a packet cannot be laid out or read.
#[derive(Debug)]
pub enum ProtocolError {
    /// The datagram would be longer than it may be.
    DatagramTooLarge { maximum: usize, actual: usize },
    /// Anything else, in the words of the implementor of [`Wire`].
    Rejected(String),
}

/// Why a step of the key exchange fails, in the words of the implementor of
/// [`Wire`].
#[derive(Debug)]
pub struct CryptoError {
    pub reason: String,
}

/// The message of a frame, as contracts see it.
pub enum FrameView {
    ClientHello(ClientHelloView),
    ServerHello(ServerHelloView),
    HandshakeAck { cookie: Seq<u8>, client_finished: Seq<u8> },
    Retry { cookie: Seq<u8> },
    Ack(AckView),
    StreamOpen(StreamOpen),
    StreamData(StreamDataView),
    ResetStream(ResetStream),
    MaxStreamData(MaxStreamData),
    MaxData(MaxData),
    Ping(Ping),
    Pong(Pong),
    ConnectionClose { error_code: u32, frame_type: u64, reason: Seq<char> },
}

/// A [`ClientHello`], as contracts see it.
pub struct ClientHelloView {
    pub client_nonce: Seq<u8>,
    pub client_public_key: Seq<u8>,
    pub max_datagram_size: u16,
    pub max_streams: u32,
    pub initial_connection_window: u64,
    pub initial_stream_window: u64,
    pub cookie: Seq<u8>,
}

/// A [`ServerHello`], as contracts see it.
pub struct ServerHelloView {
    pub server_nonce: Seq<u8>,
    pub server_public_key: Seq<u8>,
    pub server_finished: Seq<u8>,
    pub max_datagram_size: u16,
    pub max_streams: u32,
    pub initial_connection_window: u64,
    pub initial_stream_window: u64,
    pub cookie: Seq<u8>,
}

/// An [`AckFrame`], as contracts see it.
pub struct AckView {
    pub largest: u64,
    pub ack_delay: nat,
    pub ranges: Seq<AckRange>,
}

/// A [`StreamData`], as contracts see it.
pub struct StreamDataView {
    pub stream_id: StreamId,
    pub offset: u64,
    pub fin: bool,
    pub data: Seq<u8>,
}

/// A [`Packet`], as contracts see it.
pub struct PacketView {
    pub packet_type: PacketType,
    pub flags: PacketFlags,
    pub connection_id: ConnectionId,
    pub packet_number: PacketNumber,
    pub frames: Seq<FrameView>,
}

impl View for ClientHello {
    type V = ClientHelloView;

    open spec fn view(&self) -> ClientHelloView {
        ClientHelloView {
            client_nonce: self.client_nonce@,
            client_public_key: self.client_public_key@,
            max_datagram_size: self.max_datagram_size,
            max_streams: self.max_streams,
            initial_connection_window: self.initial_connection_window,
            initial_stream_window: self.initial_stream_window,
            cookie: self.cookie@,
        }
    }
}

impl View for ServerHello {
    type V = ServerHelloView;

    open spec fn view(&self) -> ServerHelloView {
        ServerHelloView {
            server_nonce: self.server_nonce@,
            server_public_key: self.server_public_key@,
            server_finished: self.server_finished@,
            max_datagram_size: self.max_datagram_size,
            max_streams: self.max_streams,
            initial_connection_window: self.initial_connection_window,
            initial_stream_window: self.initial_stream_window,
            cookie: self.cookie@,
        }
    }
}

impl View for AckFrame {
    type V = AckView;

    open spec fn view(&self) -> AckView {
        AckView {
            largest: self.largest.value,
            ack_delay: self.ack_delay@,
            ranges: self.ranges@,
        }
    }
}

impl View for StreamData {
    type V = StreamDataView;

    open spec fn view(&self) -> StreamDataView {
        StreamDataView {
            stream_id: self.stream_id,
            offset: self.offset,
            fin: self.fin,
            data: self.data@,
        }
    }
}

impl View for Frame {
    type V = FrameView;

    open spec fn view(&self) -> FrameView {
        match self {
            Frame::ClientHello(hello) => FrameView::ClientHello(hello@),
            Frame::ServerHello(hello) => FrameView::ServerHello(hello@),
            Frame::HandshakeAck(ack) => FrameView::HandshakeAck {
                cookie: ack.cookie@,
                client_finished: ack.client_finished@,
            },
            Frame::Retry(retry) => FrameView::Retry { cookie: retry.cookie@ },
            Frame::Ack(ack) => FrameView::Ack(ack@),
            Frame::StreamOpen(open) => FrameView::StreamOpen(*open),
            Frame::StreamData(data) => FrameView::StreamData(data@),
            Frame::ResetStream(reset) => FrameView::ResetStream(*reset),
            Frame::MaxStreamData(update) => FrameView::MaxStreamData(*update),
            Frame::MaxData(update) => FrameView::MaxData(*update),
            Frame::Ping(ping) => FrameView::Ping(*ping),
            Frame::Pong(pong) => FrameView::Pong(*pong),
            Frame::ConnectionClose(close) => FrameView::ConnectionClose {
                error_code: close.error_code,
                frame_type: close.frame_type,
                reason: close.reason@,
            },
        }
    }
}

impl View for Packet {
    type V = PacketView;

    open spec fn view(&self) -> PacketView {
        PacketView {
            packet_type: self.packet_type,
            flags: self.flags,
            connection_id: self.connection_id,
            packet_number: self.packet_number,
            frames: Seq::new(self.frames@.len(), |i: int| self.frames@[i]@),
        }
    }
}

impl Packet {
    /// A packet with these parts.
    pub fn new(
        packet_type: PacketType,
        flags: PacketFlags,
        connection_id: ConnectionId,
        packet_number: PacketNumber,
        frames: Vec<Frame>,
    ) -> (packet: Packet)
        ensures
            packet.packet_type == packet_type,
            packet.flags == flags,
            packet.connection_id == connection_id,
            packet.packet_number == packet_number,
            packet.frames == frames,
    {
        Packet { packet_type, flags, connection_id, packet_number, frames }
    }

    /// A copy of the packet.
    pub fn copy(&self) -> (copy: Packet)
        ensures
            copy@ == self@,
    {
        let mut frames: Vec<Frame> = Vec::new();
        let mut index: usize = 0;
        while index < self.frames.len()
            invariant
                index <= self.frames@.len(),
                frames@.len() == index,
                forall|i: int| 0 <= i < index ==> (#[trigger] frames@[i])@ == self.frames@[i]@,
            decreases self.frames@.len() - index,
        {
            frames.push(self.frames[index].copy());
            index = index + 1;
        }
        let copy = Packet {
            packet_type: self.packet_type,
            flags: self.flags,
            connection_id: self.connection_id,
            packet_number: self.packet_number,
            frames,
        };
        assert(copy@.frames =~= self@.frames);
        copy
    }
}

impl AckRange {
    /// Whether the range holds the packet number.
    pub open spec fn holds(self, number: u64) -> bool {
        self.start.value <= number <= self.end.value
    }
}

/// Whether one of the ranges holds the packet number.
pub open spec fn ranges_hold(ranges: Seq<AckRange>, number: u64) -> bool {
    exists|i: int| 0 <= i < ranges.len() && (#[trigger] ranges[i]).holds(number)
}

/// A copy of a list of ranges.
pub fn copy_ranges(ranges: &Vec<AckRange>) -> (copy: Vec<AckRange>)
    ensures
        copy@ == ranges@,
{
    let copy = ranges.clone();
    assert(copy@ =~= ranges@);
    copy
}

impl AckFrame {
    /// Whether the frame acknowledges the packet.
    pub fn acknowledges(&self, number: u64) -> (acknowledged: bool)
        ensures
            acknowledged <==> ranges_hold(self.ranges@, number),
    {
        let mut index: usize = 0;
        while index < self.ranges.len()
            invariant
                index <= self.ranges@.len(),
                forall|i: int| 0 <= i < index ==> !(#[trigger] self.ranges@[i]).holds(number),
            decreases self.ranges@.len() - index,
        {
            let range = self.ranges[index];
            if range.start.value <= number && number <= range.end.value {
                assert(self.ranges@[index as int].holds(number));
                return true;
            }
            index = index + 1;
        }
        false
    }
}

impl StreamData {
    /// A copy of the message.
    pub fn copy(&self) -> (copy: StreamData)
        ensures
            copy@ == self@,
    {
        StreamData {
            stream_id: self.stream_id,
            offset: self.offset,
            fin: self.fin,
            data: copy_bytes(&self.data),
        }
    }
}

impl Frame {
    /// A copy of the message.
    pub fn copy(&self) -> (copy: Frame)
        ensures
            copy@ == self@,
    {
        match self {
            Frame::ClientHello(hello) => Frame::ClientHello(
                ClientHello {
                    client_nonce: hello.client_nonce,
                    client_public_key: hello.client_public_key,
                    max_datagram_size: hello.max_datagram_size,
                    max_streams: hello.max_streams,
                    initial_connection_window: hello.initial_connection_window,
                    initial_stream_window: hello.initial_stream_window,
                    cookie: copy_bytes(&hello.cookie),
                },
            ),
            Frame::ServerHello(hello) => Frame::ServerHello(
                ServerHello {
                    server_nonce: hello.server_nonce,
                    server_public_key: hello.server_public_key,
                    server_finished: hello.server_finished,
                    max_datagram_size: hello.max_datagram_size,
                    max_streams: hello.max_streams,
                    initial_connection_window: hello.initial_connection_window,
                    initial_stream_window: hello.initial_stream_window,
                    cookie: copy_bytes(&hello.cookie),
                },
            ),
            Frame::HandshakeAck(ack) => Frame::HandshakeAck(
                HandshakeAck {
                    cookie: copy_bytes(&ack.cookie),
                    client_finished: ack.client_finished,
                },
            ),
            Frame::Retry(retry) => Frame::Retry(Retry { cookie: copy_bytes(&retry.cookie) }),
            Frame::Ack(ack) => Frame::Ack(
                AckFrame {
                    largest: ack.largest,
                    ack_delay: ack.ack_delay,
                    ranges: copy_ranges(&ack.ranges),
                },
            ),
            Frame::StreamOpen(open) => Frame::StreamOpen(*open),
            Frame::StreamData(data) => Frame::StreamData(data.copy()),
            Frame::ResetStream(reset) => Frame::ResetStream(*reset),
            Frame::MaxStreamData(update) => Frame::MaxStreamData(*update),
            Frame::MaxData(update) => Frame::MaxData(*update),
            Frame::Ping(ping) => Frame::Ping(*ping),
            Frame::Pong(pong) => Frame::Pong(*pong),
            Frame::ConnectionClose(close) => Frame::ConnectionClose(
                ConnectionClose {
                    error_code: close.error_code,
                    frame_type: close.frame_type,
                    reason: close.reason.clone(),
                },
            ),
        }
    }
}

/// Numbers that the layout of packets fixes.
#[derive(Debug, Clone, Copy, PartialEq, Eq, Structural)]
pub struct WireLimits {
    /// Length of the header that every packet has.
    pub fixed_header_len: usize,
    /// Largest length of a cookie.
    pub max_cookie_len: usize,
    /// Largest number of ranges in an acknowledgement.
    pub max_ack_ranges: usize,
    /// Bytes that encryption adds to a packet.
    pub seal_len: usize,
}

/// A step of the key exchange that the connection asks for.
#[derive(Debug)]
pub enum KeyRequest {
    /// Derive the keys from the hello of a client.
    AnswerClient {
        connection_id: ConnectionId,
        client_nonce: [u8; 16],
        server_nonce: [u8; 16],
        client_public_key: [u8; 32],
    },
    /// Derive the keys from the hello of a server and check its proof.
    AnswerServer {
        connection_id: ConnectionId,
        client_nonce: [u8; 16],
        server_nonce: [u8; 16],
        server_public_key: [u8; 32],
        server_finished: [u8; 32],
    },
}

/// What a step of the key exchange gives.
#[derive(Debug, Clone, Copy)]
pub struct KeyExchange {
    /// Digest of both hellos.
    pub transcript_hash: [u8; 32],
    /// Proof that this side holds the keys.
    pub finished: [u8; 32],
}

/// The layout of packets and the key exchange. Nothing is assumed of what an
/// implementor answers.
pub trait Wire {
    /// The key of this side in the key exchange.
    fn public_key(&self) -> [u8; 32];

    /// The connection that a datagram names.
    fn peek_connection_id(&self, bytes: &[u8], limit: usize) -> Result<ConnectionId, ProtocolError>;

    /// Whether a datagram says that it is encrypted.
    fn is_encrypted(&self, bytes: &[u8], limit: usize) -> Result<bool, ProtocolError>;

    /// The packet in a datagram that is not encrypted.
    fn decode(&self, bytes: &[u8], limit: usize) -> Result<Packet, ProtocolError>;

    /// The packet in an encrypted datagram.
    fn decode_sealed(&self, bytes: &[u8], limit: usize) -> Result<Packet, ProtocolError>;

    /// The datagram of a packet.
    fn encode(&self, packet: &Packet, limit: usize) -> Result<Vec<u8>, ProtocolError>;

    /// The encrypted datagram of a packet.
    fn encode_sealed(&self, packet: &Packet, limit: usize) -> Result<Vec<u8>, ProtocolError>;

    /// Length of the packet once it is laid out, at most `limit`.
    fn encoded_len(&self, packet: &Packet, limit: usize) -> Result<usize, ProtocolError>;

    /// Whether an acknowledgement is sound.
    fn check_ack(&self, ack: &AckFrame) -> Result<(), ProtocolError>;

    /// Whether a frame asks for an acknowledgement.
    fn is_ack_eliciting(&self, frame: &Frame) -> bool;

    /// Takes one step of the key exchange.
    fn exchange(&self, request: &KeyRequest) -> Result<KeyExchange, CryptoError>;

    /// Checks the proof of a client that it holds the keys.
    fn verify_client(&self, transcript_hash: &[u8; 32], client_finished: &[u8; 32]) -> Result<
        (),
        CryptoError,
    >;
}

} // verus!
