//! Behaviour of connections and endpoints over a simple layout of packets.

use udp_transfer::duration::Duration;
use udp_transfer::net::{IpAddr, SocketAddr};
use udp_transfer::reliable_core::{
    Connection, ConnectionConfig, ConnectionState, CoreError, CoreOutput, TimerEvent, TimerState,
};
use udp_transfer::reliable_udp::{
    issue_cookie, validate_cookie, Action, Command, ConnectError, CookieContext, EndpointConfig,
    EndpointError, EventLoop, PathBinding, ReadStep, ReliableStream, Reply, RetryConfig,
    ShutdownStep, StreamError, WriteStep,
};
use udp_transfer::wire::{
    AckFrame, AckRange, ClientHello, ConnectionClose, ConnectionId, CryptoError, Frame,
    HandshakeAck, KeyExchange, KeyRequest, MaxData, MaxStreamData, Packet, PacketFlags,
    PacketNumber, PacketType, Ping, Pong, ProtocolError, ResetStream, Retry, ServerHello,
    StreamData, StreamId, StreamOpen, Wire, WireLimits,
};

/// A plain layout of packets with a checksum, and a key exchange without secrets.
#[derive(Clone, Copy)]
struct PlainWire {
    key: u8,
}

const HEADER_LEN: usize = 18;
const LIMITS: WireLimits =
    WireLimits { fixed_header_len: HEADER_LEN, max_cookie_len: 128, max_ack_ranges: 16, seal_len: 16 };
const ACK_ELICITING: PacketFlags = PacketFlags { ack_eliciting: true, encrypted: false };

struct Reader<'a> {
    bytes: &'a [u8],
    at: usize,
}

impl Reader<'_> {
    fn take(&mut self, count: usize) -> Result<&[u8], ProtocolError> {
        if self.bytes.len() - self.at < count {
            return Err(rejected("truncated"));
        }
        self.at += count;
        Ok(&self.bytes[self.at - count..self.at])
    }

    fn byte(&mut self) -> Result<u8, ProtocolError> {
        Ok(self.take(1)?[0])
    }

    fn number(&mut self) -> Result<u64, ProtocolError> {
        let mut bytes = [0_u8; 8];
        bytes.copy_from_slice(self.take(8)?);
        Ok(u64::from_be_bytes(bytes))
    }

    fn blob(&mut self) -> Result<Vec<u8>, ProtocolError> {
        let count = self.number()? as usize;
        Ok(self.take(count)?.to_vec())
    }

    fn array<const N: usize>(&mut self) -> Result<[u8; N], ProtocolError> {
        let mut bytes = [0_u8; N];
        bytes.copy_from_slice(self.take(N)?);
        Ok(bytes)
    }
}

fn rejected(reason: &str) -> ProtocolError {
    ProtocolError::Rejected(reason.to_owned())
}

fn put(bytes: &mut Vec<u8>, number: u64) {
    bytes.extend_from_slice(&number.to_be_bytes());
}

fn put_blob(bytes: &mut Vec<u8>, blob: &[u8]) {
    put(bytes, blob.len() as u64);
    bytes.extend_from_slice(blob);
}

fn put_frame(bytes: &mut Vec<u8>, frame: &Frame) {
    match frame {
        Frame::ClientHello(hello) => {
            bytes.push(1);
            bytes.extend_from_slice(&hello.client_nonce);
            bytes.extend_from_slice(&hello.client_public_key);
            put(bytes, hello.max_datagram_size as u64);
            put(bytes, hello.max_streams as u64);
            put(bytes, hello.initial_connection_window);
            put(bytes, hello.initial_stream_window);
            put_blob(bytes, &hello.cookie);
        }
        Frame::ServerHello(hello) => {
            bytes.push(2);
            bytes.extend_from_slice(&hello.server_nonce);
            bytes.extend_from_slice(&hello.server_public_key);
            bytes.extend_from_slice(&hello.server_finished);
            put(bytes, hello.max_datagram_size as u64);
            put(bytes, hello.max_streams as u64);
            put(bytes, hello.initial_connection_window);
            put(bytes, hello.initial_stream_window);
            put_blob(bytes, &hello.cookie);
        }
        Frame::HandshakeAck(ack) => {
            bytes.push(3);
            put_blob(bytes, &ack.cookie);
            bytes.extend_from_slice(&ack.client_finished);
        }
        Frame::Retry(retry) => {
            bytes.push(4);
            put_blob(bytes, &retry.cookie);
        }
        Frame::Ack(ack) => {
            bytes.push(5);
            put(bytes, ack.largest.raw());
            put(bytes, ack.ack_delay.as_nanos() as u64);
            put(bytes, ack.ranges.len() as u64);
            for range in &ack.ranges {
                put(bytes, range.start.raw());
                put(bytes, range.end.raw());
            }
        }
        Frame::StreamOpen(open) => {
            bytes.push(6);
            put(bytes, open.stream_id.raw());
            put(bytes, open.initial_receive_window);
            bytes.push(open.bidirectional as u8);
        }
        Frame::StreamData(data) => {
            bytes.push(7);
            put(bytes, data.stream_id.raw());
            put(bytes, data.offset);
            bytes.push(data.fin as u8);
            put_blob(bytes, &data.data);
        }
        Frame::ResetStream(reset) => {
            bytes.push(8);
            put(bytes, reset.stream_id.raw());
            put(bytes, reset.error_code as u64);
        }
        Frame::MaxStreamData(update) => {
            bytes.push(9);
            put(bytes, update.stream_id.raw());
            put(bytes, update.max_offset);
        }
        Frame::MaxData(update) => {
            bytes.push(10);
            put(bytes, update.max_offset);
        }
        Frame::Ping(ping) => {
            bytes.push(11);
            put(bytes, ping.nonce);
        }
        Frame::Pong(pong) => {
            bytes.push(12);
            put(bytes, pong.nonce);
        }
        Frame::ConnectionClose(close) => {
            bytes.push(13);
            put(bytes, close.error_code as u64);
            put(bytes, close.frame_type);
            put_blob(bytes, close.reason.as_bytes());
        }
    }
}

fn take_frame(reader: &mut Reader) -> Result<Frame, ProtocolError> {
    Ok(match reader.byte()? {
        1 => Frame::ClientHello(ClientHello {
            client_nonce: reader.array()?,
            client_public_key: reader.array()?,
            max_datagram_size: reader.number()? as u16,
            max_streams: reader.number()? as u32,
            initial_connection_window: reader.number()?,
            initial_stream_window: reader.number()?,
            cookie: reader.blob()?,
        }),
        2 => Frame::ServerHello(ServerHello {
            server_nonce: reader.array()?,
            server_public_key: reader.array()?,
            server_finished: reader.array()?,
            max_datagram_size: reader.number()? as u16,
            max_streams: reader.number()? as u32,
            initial_connection_window: reader.number()?,
            initial_stream_window: reader.number()?,
            cookie: reader.blob()?,
        }),
        3 => Frame::HandshakeAck(HandshakeAck {
            cookie: reader.blob()?,
            client_finished: reader.array()?,
        }),
        4 => Frame::Retry(Retry { cookie: reader.blob()? }),
        5 => {
            let largest = PacketNumber::new(reader.number()?);
            let ack_delay = Duration::from_nanos(reader.number()?);
            let count = reader.number()?;
            let mut ranges = Vec::new();
            for _ in 0..count {
                let start = PacketNumber::new(reader.number()?);
                let end = PacketNumber::new(reader.number()?);
                ranges.push(AckRange { start, end });
            }
            Frame::Ack(AckFrame { largest, ack_delay, ranges })
        }
        6 => Frame::StreamOpen(StreamOpen {
            stream_id: StreamId::new(reader.number()?),
            initial_receive_window: reader.number()?,
            bidirectional: reader.byte()? != 0,
        }),
        7 => Frame::StreamData(StreamData {
            stream_id: StreamId::new(reader.number()?),
            offset: reader.number()?,
            fin: reader.byte()? != 0,
            data: reader.blob()?,
        }),
        8 => Frame::ResetStream(ResetStream {
            stream_id: StreamId::new(reader.number()?),
            error_code: reader.number()? as u32,
        }),
        9 => Frame::MaxStreamData(MaxStreamData {
            stream_id: StreamId::new(reader.number()?),
            max_offset: reader.number()?,
        }),
        10 => Frame::MaxData(MaxData { max_offset: reader.number()? }),
        11 => Frame::Ping(Ping { nonce: reader.number()? }),
        12 => Frame::Pong(Pong { nonce: reader.number()? }),
        13 => Frame::ConnectionClose(ConnectionClose {
            error_code: reader.number()? as u32,
            frame_type: reader.number()?,
            reason: String::from_utf8(reader.blob()?).map_err(|_| rejected("reason"))?,
        }),
        _ => return Err(rejected("frame type")),
    })
}

fn checksum(bytes: &[u8]) -> u8 {
    bytes.iter().fold(17_u8, |sum, byte| sum.rotate_left(1) ^ byte)
}

fn transcript(client: &[u8; 16], server: &[u8; 16]) -> [u8; 32] {
    let mut hash = [0_u8; 32];
    for index in 0..16 {
        hash[index] = client[index] ^ 0x33;
        hash[16 + index] = server[index] ^ 0x55;
    }
    hash
}

fn evidence(hash: &[u8; 32], tag: u8) -> [u8; 32] {
    let mut bytes = *hash;
    for byte in bytes.iter_mut() {
        *byte = byte.wrapping_add(tag);
    }
    bytes
}

impl PlainWire {
    fn lay_out(&self, packet: &Packet, limit: usize, sealed: bool) -> Result<Vec<u8>, ProtocolError> {
        let mut bytes = vec![match packet.packet_type {
            PacketType::Initial => 0,
            PacketType::Handshake => 1,
            PacketType::Retry => 2,
            PacketType::Data => 3,
            PacketType::Close => 4,
        }];
        bytes.push(packet.flags.ack_eliciting as u8 + 2 * sealed as u8);
        put(&mut bytes, packet.connection_id.raw());
        put(&mut bytes, packet.packet_number.raw());
        for frame in &packet.frames {
            put_frame(&mut bytes, frame);
        }
        let sum = checksum(&bytes);
        bytes.push(sum);
        if sealed {
            for byte in bytes[HEADER_LEN..].iter_mut() {
                *byte ^= 0x5a;
            }
        }
        if bytes.len() > limit {
            return Err(ProtocolError::DatagramTooLarge { maximum: limit, actual: bytes.len() });
        }
        Ok(bytes)
    }

    fn read(&self, bytes: &[u8], sealed: bool) -> Result<Packet, ProtocolError> {
        if bytes.len() <= HEADER_LEN {
            return Err(rejected("truncated"));
        }
        let mut plain = bytes.to_vec();
        if sealed {
            for byte in plain[HEADER_LEN..].iter_mut() {
                *byte ^= 0x5a;
            }
        }
        let sum = plain.pop().unwrap();
        if checksum(&plain) != sum {
            return Err(rejected("checksum"));
        }
        let mut reader = Reader { bytes: &plain, at: 0 };
        let packet_type = match reader.byte()? {
            0 => PacketType::Initial,
            1 => PacketType::Handshake,
            2 => PacketType::Retry,
            3 => PacketType::Data,
            4 => PacketType::Close,
            _ => return Err(rejected("packet type")),
        };
        let flags = reader.byte()?;
        let connection_id = ConnectionId::new(reader.number()?);
        let packet_number = PacketNumber::new(reader.number()?);
        let mut frames = Vec::new();
        while reader.at < plain.len() {
            frames.push(take_frame(&mut reader)?);
        }
        Ok(Packet::new(
            packet_type,
            PacketFlags { ack_eliciting: flags % 2 == 1, encrypted: sealed },
            connection_id,
            packet_number,
            frames,
        ))
    }
}

impl Wire for PlainWire {
    fn public_key(&self) -> [u8; 32] {
        [self.key; 32]
    }

    fn peek_connection_id(&self, bytes: &[u8], _limit: usize) -> Result<ConnectionId, ProtocolError> {
        let mut reader = Reader { bytes, at: 0 };
        if reader.byte()? > 4 {
            return Err(rejected("packet type"));
        }
        reader.byte()?;
        Ok(ConnectionId::new(reader.number()?))
    }

    fn is_encrypted(&self, bytes: &[u8], _limit: usize) -> Result<bool, ProtocolError> {
        if bytes.len() < HEADER_LEN {
            return Err(rejected("truncated"));
        }
        Ok(bytes[1] >= 2)
    }

    fn decode(&self, bytes: &[u8], _limit: usize) -> Result<Packet, ProtocolError> {
        self.read(bytes, false)
    }

    fn decode_sealed(&self, bytes: &[u8], _limit: usize) -> Result<Packet, ProtocolError> {
        self.read(bytes, true)
    }

    fn encode(&self, packet: &Packet, limit: usize) -> Result<Vec<u8>, ProtocolError> {
        self.lay_out(packet, limit, false)
    }

    fn encode_sealed(&self, packet: &Packet, limit: usize) -> Result<Vec<u8>, ProtocolError> {
        self.lay_out(packet, limit, true)
    }

    fn encoded_len(&self, packet: &Packet, limit: usize) -> Result<usize, ProtocolError> {
        Ok(self.lay_out(packet, limit, false)?.len())
    }

    fn check_ack(&self, ack: &AckFrame) -> Result<(), ProtocolError> {
        if ack.ranges.is_empty() || ack.ranges.iter().any(|range| range.start.raw() > range.end.raw()) {
            return Err(rejected("ranges"));
        }
        Ok(())
    }

    fn is_ack_eliciting(&self, frame: &Frame) -> bool {
        !matches!(frame, Frame::Ack(_) | Frame::ConnectionClose(_) | Frame::Retry(_))
    }

    fn exchange(&self, request: &KeyRequest) -> Result<KeyExchange, CryptoError> {
        match request {
            KeyRequest::AnswerClient { client_nonce, server_nonce, .. } => {
                let hash = transcript(client_nonce, server_nonce);
                Ok(KeyExchange { transcript_hash: hash, finished: evidence(&hash, 1) })
            }
            KeyRequest::AnswerServer { client_nonce, server_nonce, server_finished, .. } => {
                let hash = transcript(client_nonce, server_nonce);
                if *server_finished != evidence(&hash, 1) {
                    return Err(CryptoError { reason: "server proof".to_owned() });
                }
                Ok(KeyExchange { transcript_hash: hash, finished: evidence(&hash, 2) })
            }
        }
    }

    fn verify_client(
        &self,
        transcript_hash: &[u8; 32],
        client_finished: &[u8; 32],
    ) -> Result<(), CryptoError> {
        if *client_finished != evidence(transcript_hash, 2) {
            return Err(CryptoError { reason: "client proof".to_owned() });
        }
        Ok(())
    }
}

const WIRE: PlainWire = PlainWire { key: 7 };

fn config_of_connections() -> ConnectionConfig {
    config()
}

fn config() -> ConnectionConfig {
    ConnectionConfig {
        clock_granularity: Duration::from_millis(1),
        ack_delay: Duration::from_millis(2),
        handshake_timeout: Duration::from_millis(50),
        idle_timeout: Duration::from_millis(200),
        keepalive_interval: None,
        initial_rto: Duration::from_millis(20),
        min_rto: Duration::from_millis(5),
        max_rto: Duration::from_millis(100),
        ..ConnectionConfig::new(1_200, LIMITS)
    }
}

fn new_client(id: ConnectionId, config: ConnectionConfig) -> Connection {
    Connection::new_client(id, config, [7; 32], &WIRE).unwrap()
}

fn new_server(id: ConnectionId, config: ConnectionConfig) -> Connection {
    Connection::new_server(id, config, [8; 32]).unwrap()
}

fn take_packet(connection: &mut Connection) -> Packet {
    connection
        .drain_output()
        .into_iter()
        .find_map(|output| match output {
            CoreOutput::Send(packet) => Some(packet),
            _ => None,
        })
        .expect("a packet should be queued")
}

fn establish() -> (Connection, Connection) {
    let id = ConnectionId::new(9);
    let mut client = new_client(id, config());
    let mut server = new_server(id, config());
    let initial = take_packet(&mut client);
    server.on_datagram(initial, &WIRE).unwrap();
    let hello = take_packet(&mut server);
    client.on_datagram(hello, &WIRE).unwrap();
    let handshake_ack = take_packet(&mut client);
    server.on_datagram(handshake_ack, &WIRE).unwrap();
    assert_eq!(client.state(), ConnectionState::Established);
    assert_eq!(server.state(), ConnectionState::Established);
    (client, server)
}

#[test]
fn encrypted_datagrams_complete_handshake_and_stream_delivery() {
    let id = ConnectionId::new(21);
    let mut client = new_client(id, config());
    let mut server = new_server(id, config());

    let initial = take_packet(&mut client);
    let initial_bytes = client.encode_packet(&initial, &WIRE).unwrap();
    server.on_datagram_bytes(&initial_bytes, &WIRE).unwrap();
    let server_hello = take_packet(&mut server);
    let server_hello_bytes = server.encode_packet(&server_hello, &WIRE).unwrap();
    client.on_datagram_bytes(&server_hello_bytes, &WIRE).unwrap();
    let handshake_ack = take_packet(&mut client);
    let handshake_ack_bytes = client.encode_packet(&handshake_ack, &WIRE).unwrap();
    server.on_datagram_bytes(&handshake_ack_bytes, &WIRE).unwrap();
    server.advance_time(Duration::from_millis(2), &WIRE).unwrap();
    let encrypted_ack = server
        .drain_output()
        .into_iter()
        .find_map(|output| match output {
            CoreOutput::Send(packet) => Some(packet),
            _ => None,
        })
        .expect("server should acknowledge the handshake");
    let encrypted_ack_bytes = server.encode_packet(&encrypted_ack, &WIRE).unwrap();
    client.on_datagram_bytes(&encrypted_ack_bytes, &WIRE).unwrap();

    let stream_id = client.open_stream(&WIRE).unwrap();
    let open = take_packet(&mut client);
    server
        .on_datagram_bytes(&client.encode_packet(&open, &WIRE).unwrap(), &WIRE)
        .unwrap();
    server.drain_output();
    client.write_stream(stream_id, b"secret", true, &WIRE).unwrap();
    let data = take_packet(&mut client);
    server
        .on_datagram_bytes(&client.encode_packet(&data, &WIRE).unwrap(), &WIRE)
        .unwrap();
    assert_eq!(server.read_stream(stream_id, 64, &WIRE).unwrap().data, b"secret");
}

#[test]
fn completes_handshake_and_opens_stream() {
    let (mut client, mut server) = establish();
    let stream_id = client.open_stream(&WIRE).unwrap();
    let open = take_packet(&mut client);
    server.on_datagram(open, &WIRE).unwrap();
    assert!(server.stream_info(stream_id).is_ok());
    assert!(
        server
            .drain_output()
            .iter()
            .any(|output| matches!(output, CoreOutput::StreamOpened(opened) if *opened == stream_id))
    );
}

#[test]
fn generates_a_fresh_client_nonce_per_connection() {
    let mut first = new_client(ConnectionId::new(1), config());
    let mut second = new_client(ConnectionId::new(2), config());
    let first_nonce = first
        .drain_output()
        .into_iter()
        .find_map(|output| match output {
            CoreOutput::Send(packet) => {
                packet.frames.into_iter().find_map(|frame| match frame {
                    Frame::ClientHello(hello) => Some(hello.client_nonce),
                    _ => None,
                })
            }
            _ => None,
        })
        .expect("first client hello should contain a nonce");
    let second_nonce = second
        .drain_output()
        .into_iter()
        .find_map(|output| match output {
            CoreOutput::Send(packet) => {
                packet.frames.into_iter().find_map(|frame| match frame {
                    Frame::ClientHello(hello) => Some(hello.client_nonce),
                    _ => None,
                })
            }
            _ => None,
        })
        .expect("second client hello should contain a nonce");
    assert_ne!(first_nonce, second_nonce);
    assert_ne!(first_nonce, [0_u8; 16]);
    assert_ne!(second_nonce, [0_u8; 16]);
}

#[test]
fn reliable_flush_waits_for_packet_acknowledgements() {
    let (mut client, mut server) = establish();
    let stream_id = client.open_stream(&WIRE).unwrap();
    let open = take_packet(&mut client);
    assert!(!client.is_reliably_flushed());
    server.on_datagram(open, &WIRE).unwrap();
    server.advance_time(Duration::from_millis(2), &WIRE).unwrap();
    let ack = server
        .drain_output()
        .into_iter()
        .find_map(|output| match output {
            CoreOutput::Send(packet)
                if packet
                    .frames
                    .iter()
                    .any(|frame| matches!(frame, Frame::Ack(_))) =>
            {
                Some(packet)
            }
            _ => None,
        })
        .expect("an ACK should be emitted");
    client.on_datagram(ack, &WIRE).unwrap();
    assert!(client.is_reliably_flushed());
    let _ = stream_id;
}

#[test]
fn flush_waits_through_other_datagrams_for_the_acknowledgement() {
    let (mut client, mut server) = establish();
    client.open_stream(&WIRE).unwrap();
    let open = take_packet(&mut client);
    server.open_stream(&WIRE).unwrap();
    let other = take_packet(&mut server);
    client.on_datagram(other, &WIRE).unwrap();
    assert!(!client.is_reliably_flushed());
    let number = open.packet_number.raw();
    let unrelated = Packet::new(
        PacketType::Data,
        PacketFlags { ack_eliciting: false, encrypted: false },
        open.connection_id,
        PacketNumber::new(40),
        vec![Frame::Pong(Pong { nonce: 0 })],
    );
    client.on_datagram(unrelated, &WIRE).unwrap();
    assert!(!client.is_reliably_flushed());
    server.on_datagram(open, &WIRE).unwrap();
    server.advance_time(Duration::from_millis(2), &WIRE).unwrap();
    let ack = server
        .drain_output()
        .into_iter()
        .find_map(|output| match output {
            CoreOutput::Send(packet)
                if packet.frames.iter().any(|frame| match frame {
                    Frame::Ack(ack) => ack
                        .ranges
                        .iter()
                        .any(|range| range.start.raw() <= number && number <= range.end.raw()),
                    _ => false,
                }) =>
            {
                Some(packet)
            }
            _ => None,
        })
        .expect("an ACK should be emitted");
    client.on_datagram(ack, &WIRE).unwrap();
    assert!(client.is_reliably_flushed());
}

#[test]
fn retry_does_not_consume_the_server_packet_number_zero() {
    let id = ConnectionId::new(19);
    let mut client = new_client(id, config());
    let initial = take_packet(&mut client);
    let nonce = match &initial.frames[0] {
        Frame::ClientHello(hello) => hello.client_nonce,
        _ => panic!("client must start with ClientHello"),
    };
    let retry = Packet::new(
        PacketType::Retry,
        PacketFlags { ack_eliciting: false, encrypted: false },
        id,
        PacketNumber::new(u64::MAX),
        vec![Frame::Retry(Retry {
            cookie: vec![7, 8, 9],
        })],
    );
    client.on_datagram(retry, &WIRE).unwrap();
    let retried_initial = take_packet(&mut client);
    assert!(matches!(
        &retried_initial.frames[0],
        Frame::ClientHello(hello) if hello.client_nonce == nonce && hello.cookie == vec![7, 8, 9]
    ));

    let mut server = new_server(id, config());
    server.on_datagram(retried_initial, &WIRE).unwrap();
    let server_hello = take_packet(&mut server);
    assert_eq!(server_hello.packet_number.raw(), 0);
    client.on_datagram(server_hello, &WIRE).unwrap();
    assert_eq!(client.state(), ConnectionState::Established);
}

#[test]
fn delivers_out_of_order_duplicate_data_in_order() {
    let (mut client, mut server) = establish();
    let stream_id = client.open_stream(&WIRE).unwrap();
    server.on_datagram(take_packet(&mut client), &WIRE).unwrap();
    server.drain_output();

    let first = Packet::new(
        PacketType::Data,
        ACK_ELICITING,
        ConnectionId::new(9),
        PacketNumber::new(20),
        vec![Frame::StreamData(StreamData {
            stream_id,
            offset: 5,
            fin: true,
            data: b" world".to_vec(),
        })],
    );
    let second = Packet::new(
        PacketType::Data,
        ACK_ELICITING,
        ConnectionId::new(9),
        PacketNumber::new(19),
        vec![Frame::StreamData(StreamData {
            stream_id,
            offset: 0,
            fin: false,
            data: b"hello".to_vec(),
        })],
    );
    server.on_datagram(first, &WIRE).unwrap();
    server.on_datagram(second.copy(), &WIRE).unwrap();
    server.on_datagram(second, &WIRE).unwrap();
    assert_eq!(
        server.read_stream(stream_id, 100, &WIRE).unwrap().data,
        b"hello world"
    );
    assert!(server.read_stream(stream_id, 100, &WIRE).unwrap().eof);
}

#[test]
fn retransmits_after_rto_and_recovers_from_ack() {
    let (mut client, mut server) = establish();
    let stream_id = client.open_stream(&WIRE).unwrap();
    server.on_datagram(take_packet(&mut client), &WIRE).unwrap();
    server.drain_output();
    client.write_stream(stream_id, b"reliable", true, &WIRE).unwrap();
    let data = take_packet(&mut client);
    client.advance_time(Duration::from_millis(21), &WIRE).unwrap();
    let mut pending_packets = Vec::new();
    let mut retransmission = None;
    for output in client.drain_output() {
        if let CoreOutput::Send(packet) = output {
            if packet
                .frames
                .iter()
                .any(|frame| matches!(frame, Frame::StreamData(_)))
            {
                retransmission = Some(packet.copy());
            }
            pending_packets.push(packet);
        }
    }
    let retransmission = retransmission.expect("a stream-data retransmission should be queued");
    assert_ne!(data.packet_number, retransmission.packet_number);
    for packet in pending_packets {
        server.on_datagram(packet, &WIRE).unwrap();
    }
    assert_eq!(
        server.read_stream(stream_id, 100, &WIRE).unwrap().data,
        b"reliable"
    );
    server.advance_time(Duration::from_millis(2), &WIRE).unwrap();
    let ack = server
        .drain_output()
        .into_iter()
        .find_map(|output| match output {
            CoreOutput::Send(packet)
                if packet
                    .frames
                    .iter()
                    .any(|frame| matches!(frame, Frame::Ack(_))) =>
            {
                Some(packet)
            }
            _ => None,
        })
        .expect("an acknowledgement should be queued");
    client.on_datagram(ack, &WIRE).unwrap();
    assert_eq!(client.bytes_in_flight(), 0);
}

#[test]
fn fast_forward_timer_expires_without_tokio() {
    let (mut client, _) = establish();
    client.advance_time(Duration::from_secs(60), &WIRE).unwrap();
    assert!(matches!(
        client.state(),
        ConnectionState::Closing | ConnectionState::Closed
    ));
}

#[test]
fn rejects_corrupted_bytes_and_wrong_connection_id() {
    let id = ConnectionId::new(9);
    let mut client = new_client(id, config());
    let initial = take_packet(&mut client);
    let mut encoded = WIRE.encode(&initial, 1_200).unwrap();
    let last = encoded.len() - 1;
    encoded[last] ^= 1;
    let mut server = new_server(id, config());
    assert!(matches!(
        server.on_datagram_bytes(&encoded, &WIRE),
        Err(CoreError::Protocol(
            ProtocolError::Rejected(_)
        ))
    ));

    let wrong = Packet::new(
        PacketType::Initial,
        ACK_ELICITING,
        ConnectionId::new(10),
        initial.packet_number,
        initial.frames,
    );
    assert!(matches!(
        server.on_datagram(wrong, &WIRE),
        Err(CoreError::ConnectionIdMismatch)
    ));
}

#[test]
fn rejects_peer_stream_with_local_parity() {
    let (mut client, mut server) = establish();
    let invalid = Packet::new(
        PacketType::Data,
        ACK_ELICITING,
        ConnectionId::new(9),
        PacketNumber::new(50),
        vec![Frame::StreamOpen(StreamOpen {
            stream_id: StreamId::new(1),
            initial_receive_window: 10,
            bidirectional: true,
        })],
    );
    assert!(matches!(
        server.on_datagram(invalid, &WIRE),
        Err(CoreError::InvalidStreamId { .. })
    ));
    assert!(client.open_stream(&WIRE).is_ok());
}

#[test]
fn receive_window_error_does_not_poison_stream_state() {
    let small_config = || ConnectionConfig { initial_stream_window: 4, ..config() };
    let id = ConnectionId::new(9);
    let mut client = new_client(id, small_config());
    let mut server = new_server(id, small_config());
    let initial = take_packet(&mut client);
    server.on_datagram(initial, &WIRE).unwrap();
    let hello = take_packet(&mut server);
    client.on_datagram(hello, &WIRE).unwrap();
    let handshake_ack = take_packet(&mut client);
    server.on_datagram(handshake_ack, &WIRE).unwrap();
    let stream_id = client.open_stream(&WIRE).unwrap();
    server.on_datagram(take_packet(&mut client), &WIRE).unwrap();
    server.drain_output();

    let oversized = Packet::new(
        PacketType::Data,
        ACK_ELICITING,
        id,
        PacketNumber::new(30),
        vec![Frame::StreamData(StreamData {
            stream_id,
            offset: 0,
            fin: false,
            data: b"12345".to_vec(),
        })],
    );
    assert!(matches!(
        server.on_datagram(oversized, &WIRE),
        Err(CoreError::FlowControlViolation { .. })
    ));

    let valid = Packet::new(
        PacketType::Data,
        ACK_ELICITING,
        id,
        PacketNumber::new(31),
        vec![Frame::StreamData(StreamData {
            stream_id,
            offset: 0,
            fin: true,
            data: b"ok".to_vec(),
        })],
    );
    server.on_datagram(valid, &WIRE).unwrap();
    assert_eq!(server.read_stream(stream_id, 10, &WIRE).unwrap().data, b"ok");
}

#[test]
fn events_come_in_the_order_of_their_deadlines() {
    let mut timers = TimerState::new(&config()).unwrap();
    timers.schedule(TimerEvent::IdleTimeout, Duration::from_millis(30)).unwrap();
    timers.schedule(TimerEvent::AckDelay, Duration::from_millis(5)).unwrap();
    timers.schedule(TimerEvent::Keepalive, Duration::from_millis(12)).unwrap();
    assert_eq!(timers.next_deadline().unwrap(), Some(Duration::from_millis(5)));
    assert_eq!(
        timers.advance(Duration::from_millis(40)).unwrap(),
        vec![TimerEvent::AckDelay, TimerEvent::Keepalive, TimerEvent::IdleTimeout]
    );
    assert_eq!(timers.next_deadline().unwrap(), None);
}

#[test]
fn events_of_one_slot_come_in_the_order_in_which_they_were_set() {
    let mut timers = TimerState::new(&config()).unwrap();
    let delay = Duration::from_millis(900);
    let event = |number: u64| TimerEvent::Retransmit {
        packet_number: PacketNumber::new(number),
        generation: 1,
    };
    timers.schedule(event(7), delay).unwrap();
    let taken_back = timers.schedule(event(5), delay).unwrap();
    timers.schedule(event(3), delay).unwrap();
    timers.schedule(event(9), delay).unwrap();
    timers.cancel(taken_back);
    assert!(timers.advance(Duration::from_millis(600)).unwrap().is_empty());
    assert_eq!(
        timers.advance(Duration::from_millis(300)).unwrap(),
        vec![event(7), event(3), event(9)]
    );
}

#[test]
fn sending_keeps_to_the_windows_and_numbers_packets_in_order() {
    let small_config = || ConnectionConfig { initial_connection_window: 3_000, ..config() };
    let id = ConnectionId::new(9);
    let mut client = new_client(id, small_config());
    let mut server = new_server(id, small_config());
    let initial = take_packet(&mut client);
    server.on_datagram(initial, &WIRE).unwrap();
    let hello = take_packet(&mut server);
    client.on_datagram(hello, &WIRE).unwrap();
    let handshake_ack = take_packet(&mut client);
    let mut last = handshake_ack.packet_number.value;
    server.on_datagram(handshake_ack, &WIRE).unwrap();
    let stream_id = client.open_stream(&WIRE).unwrap();
    client.write_stream(stream_id, &[5; 10_000], false, &WIRE).unwrap();
    let mut sent = 0;
    for output in client.drain_output() {
        if let CoreOutput::Send(packet) = output {
            assert_eq!(packet.packet_number.value, last + 1);
            last = packet.packet_number.value;
            for frame in packet.frames {
                if let Frame::StreamData(data) = frame {
                    sent += data.data.len();
                }
            }
        }
    }
    assert!(sent > 0 && sent <= 3_000);
}

#[test]
fn independent_stream_can_progress_when_another_stream_is_lost() {
    let (mut client, mut server) = establish();
    let first = client.open_stream(&WIRE).unwrap();
    let first_open = take_packet(&mut client);
    server.on_datagram(first_open, &WIRE).unwrap();
    let second = client.open_stream(&WIRE).unwrap();
    let second_open = take_packet(&mut client);
    server.on_datagram(second_open, &WIRE).unwrap();
    server.drain_output();

    client.write_stream(first, b"lost", false, &WIRE).unwrap();
    let _lost = take_packet(&mut client);
    client.write_stream(second, b"delivered", true, &WIRE).unwrap();
    let delivered = take_packet(&mut client);
    server.on_datagram(delivered, &WIRE).unwrap();
    assert_eq!(server.read_stream(second, 100, &WIRE).unwrap().data, b"delivered");
    assert_eq!(server.read_stream(first, 100, &WIRE).unwrap().data, b"");
}

#[test]
fn ack_cancels_retransmission_timer() {
    let (mut client, mut server) = establish();
    let stream_id = client.open_stream(&WIRE).unwrap();
    let open = take_packet(&mut client);
    server.on_datagram(open, &WIRE).unwrap();
    server.advance_time(Duration::from_millis(2), &WIRE).unwrap();
    let ack = server
        .drain_output()
        .into_iter()
        .find_map(|output| match output {
            CoreOutput::Send(packet)
                if packet
                    .frames
                    .iter()
                    .any(|frame| matches!(frame, Frame::Ack(_))) =>
            {
                Some(packet)
            }
            _ => None,
        })
        .expect("an ACK should be emitted");
    client.on_datagram(ack, &WIRE).unwrap();
    client.advance_time(Duration::from_millis(25), &WIRE).unwrap();
    assert!(!client.drain_output().into_iter().any(|output| {
        matches!(
            output,
            CoreOutput::Send(packet)
                if packet
                    .frames
                    .iter()
                    .any(|frame| matches!(frame, Frame::StreamOpen(_)))
        )
    }));
    let _ = stream_id;
}

fn loopback(port: u16) -> SocketAddr {
    SocketAddr::new(IpAddr::v4(127, 0, 0, 1), port)
}

#[test]
fn cookie_is_bound_to_peer_connection_and_nonce() {
    let secret = [7_u8; 32];
    let peer = loopback(9000);
    let nonce = [9_u8; 16];
    let now = Some(100);
    let cookie = issue_cookie(&secret, peer, ConnectionId::new(3), &nonce, now).unwrap();

    assert!(validate_cookie(
        &secret,
        &cookie,
        now,
        CookieContext {
            peer,
            connection_id: ConnectionId::new(3),
            client_nonce: &nonce,
            cookie_ttl: Duration::from_secs(10),
            clock_skew: Duration::zero(),
        },
    ));
    assert!(!validate_cookie(
        &secret,
        &cookie,
        now,
        CookieContext {
            peer: loopback(9001),
            connection_id: ConnectionId::new(3),
            client_nonce: &nonce,
            cookie_ttl: Duration::from_secs(10),
            clock_skew: Duration::zero(),
        },
    ));
}

#[test]
fn cookie_is_good_for_its_time_alone() {
    let secret = [7_u8; 32];
    let peer = loopback(9000);
    let nonce = [9_u8; 16];
    let cookie = issue_cookie(&secret, peer, ConnectionId::new(3), &nonce, Some(100)).unwrap();
    let good = |now: u64, secret: &[u8; 32], cookie: &[u8]| {
        validate_cookie(
            secret,
            cookie,
            Some(now),
            CookieContext {
                peer,
                connection_id: ConnectionId::new(3),
                client_nonce: &nonce,
                cookie_ttl: Duration::from_secs(10),
                clock_skew: Duration::from_secs(5),
            },
        )
    };
    assert!(good(100, &secret, &cookie));
    assert!(good(110, &secret, &cookie));
    assert!(!good(200, &secret, &cookie));
    assert!(!good(100, &[8_u8; 32], &cookie));
    let mut changed = cookie.clone();
    let last = changed.len() - 1;
    changed[last] ^= 1;
    assert!(!good(100, &secret, &changed));
    assert!(!good(100, &secret, &cookie[..last]));
}

/// Two endpoints that exchange their datagrams at once.
struct Pair {
    client: EventLoop<PlainWire>,
    server: EventLoop<PlainWire>,
    replies: Vec<(u64, Reply)>,
    accepted: Vec<ConnectionId>,
}

impl Pair {
    fn new(retry: bool) -> Pair {
        let endpoint = |port: u16| {
            let mut config = EndpointConfig::new(loopback(port), 1_200, LIMITS);
            config.connection = config_of_connections();
            config.retry = RetryConfig {
                enabled: retry,
                cookie_secret: Some([3; 32]),
                ..RetryConfig::default()
            };
            config.validate().unwrap();
            EventLoop::new(config)
        };
        Pair { client: endpoint(1), server: endpoint(2), replies: Vec::new(), accepted: Vec::new() }
    }

    fn settle(&mut self) {
        loop {
            let mut idle = true;
            for action in self.client.take_actions() {
                idle = false;
                match action {
                    Action::Datagram { bytes, .. } => {
                        let _ = self.server.handle_datagram(&bytes, loopback(1), Some(100), true, WIRE);
                    }
                    Action::Reply { request, reply } => self.replies.push((request, reply)),
                    Action::Accept { .. } | Action::Yield | Action::Abandon { .. } => {}
                }
            }
            for action in self.server.take_actions() {
                idle = false;
                match action {
                    Action::Datagram { bytes, .. } => {
                        let _ = self.client.handle_datagram(&bytes, loopback(2), Some(100), true, WIRE);
                    }
                    Action::Reply { request, reply } => self.replies.push((1_000 + request, reply)),
                    Action::Accept { connection_id } => self.accepted.push(connection_id),
                    Action::Yield | Action::Abandon { .. } => {}
                }
            }
            if idle {
                return;
            }
        }
    }

    fn pass(&mut self, millis: u64) {
        for endpoint in [&mut self.client, &mut self.server] {
            endpoint.observe(Duration::from_millis(millis));
            let _ = endpoint.advance_time(true);
        }
        self.settle();
    }

    fn reply(&mut self, request: u64) -> Reply {
        let place = self.replies.iter().position(|(number, _)| *number == request);
        self.replies.remove(place.expect("a request should be answered")).1
    }

    fn connect(&mut self) -> ConnectionId {
        let step = self.client.connect_as(loopback(2), 1, Some(77), true, WIRE);
        assert!(step.is_ok());
        self.settle();
        match self.reply(1) {
            Reply::Connect(Ok(id)) => id,
            other => panic!("unexpected answer: {other:?}"),
        }
    }

    fn open(&mut self, connection_id: ConnectionId, request: u64) -> StreamId {
        self.client.handle_command(Command::OpenStream { connection_id }, request, true).unwrap();
        self.settle();
        match self.reply(request) {
            Reply::Stream(Ok(id)) => id,
            other => panic!("unexpected answer: {other:?}"),
        }
    }
}

#[test]
fn localhost_handshake_and_ordered_stream_transfer() {
    for retry in [false, true] {
        let mut pair = Pair::new(retry);
        let id = pair.connect();
        assert_eq!(pair.accepted, vec![id]);
        let stream_id = pair.open(id, 2);
        pair.server.handle_command(Command::AcceptStream { connection_id: id }, 3, true).unwrap();
        pair.settle();
        assert!(matches!(pair.reply(1_003), Reply::Stream(Ok(found)) if found == stream_id));
        pair.server
            .handle_command(Command::Read { connection_id: id, stream_id, max_len: 64 }, 4, true)
            .unwrap();
        for (request, data, fin) in [(5, "reliable ", false), (6, "udp", true)] {
            let write = Command::Write {
                connection_id: id,
                stream_id,
                data: data.as_bytes().to_vec(),
                fin,
            };
            pair.client.handle_command(write, request, true).unwrap();
            pair.settle();
            assert!(matches!(pair.reply(request), Reply::Write(Ok(count)) if count == data.len()));
        }
        let mut read = match pair.reply(1_004) {
            Reply::Read(Ok(read)) => read.data,
            other => panic!("unexpected answer: {other:?}"),
        };
        pair.server
            .handle_command(Command::Read { connection_id: id, stream_id, max_len: 64 }, 7, true)
            .unwrap();
        pair.settle();
        match pair.reply(1_007) {
            Reply::Read(Ok(more)) => {
                read.extend_from_slice(&more.data);
                assert!(more.eof);
            }
            other => panic!("unexpected answer: {other:?}"),
        }
        assert_eq!(read, b"reliable udp");
    }
}

#[test]
fn malformed_datagram_does_not_stop_accepting_connections() {
    let mut pair = Pair::new(false);
    let _ = pair.server.handle_datagram(
        b"not a reliable udp packet",
        loopback(9),
        Some(100),
        true,
        WIRE,
    );
    assert_eq!(pair.server.len(), 0);
    pair.connect();
    assert_eq!(pair.server.len(), 1);
}

#[test]
fn invalid_initial_receives_retry_without_becoming_accepted() {
    let mut pair = Pair::new(true);
    let mut client = new_client(ConnectionId::new(5), config());
    let initial = take_packet(&mut client);
    let bytes = client.encode_packet(&initial, &WIRE).unwrap();
    pair.server.handle_datagram(&bytes, loopback(1), Some(100), true, WIRE).unwrap();
    let actions = pair.server.take_actions();
    assert_eq!(actions.len(), 1);
    match &actions[0] {
        Action::Datagram { bytes, peer } => {
            assert_eq!(*peer, loopback(1));
            let packet = WIRE.decode(bytes, 1_200).unwrap();
            assert_eq!(packet.packet_type, PacketType::Retry);
            assert!(matches!(&packet.frames[0], Frame::Retry(retry) if !retry.cookie.is_empty()));
        }
        other => panic!("unexpected action: {other:?}"),
    }
    assert_eq!(pair.server.len(), 0);
}

#[test]
fn close_frame_wakes_connection_commands() {
    let mut pair = Pair::new(false);
    let id = pair.connect();
    let stream_id = pair.open(id, 2);
    pair.client
        .handle_command(Command::Read { connection_id: id, stream_id, max_len: 8 }, 3, true)
        .unwrap();
    pair.client.handle_command(Command::AcceptStream { connection_id: id }, 4, true).unwrap();
    pair.settle();
    assert!(pair.replies.is_empty());
    let close = Command::Close {
        connection_id: id,
        error_code: 20,
        reason: "test close".to_owned(),
    };
    pair.server.handle_command(close, 5, true).unwrap();
    pair.settle();
    assert!(matches!(pair.reply(3), Reply::Read(Err(_))));
    assert!(matches!(pair.reply(4), Reply::Stream(Err(_))));
}

#[test]
fn timer_wheel_drives_idle_timeout() {
    let mut pair = Pair::new(false);
    let id = pair.connect();
    pair.client.handle_command(Command::AcceptStream { connection_id: id }, 2, true).unwrap();
    pair.pass(60);
    pair.pass(70);
    assert!(pair.replies.is_empty());
    for step in 1..20 {
        pair.pass(70 + step * 120);
    }
    assert!(matches!(pair.reply(2), Reply::Stream(Err(_))));
}

#[test]
fn streams_are_independent_and_keep_their_boundaries() {
    let mut pair = Pair::new(false);
    let id = pair.connect();
    let first = pair.open(id, 2);
    let second = pair.open(id, 3);
    for (request, stream_id, data) in [(4, first, "first"), (5, second, "second")] {
        let write = Command::Write {
            connection_id: id,
            stream_id,
            data: data.as_bytes().to_vec(),
            fin: true,
        };
        pair.client.handle_command(write, request, true).unwrap();
        pair.settle();
    }
    for (request, stream_id, data) in [(6, second, "second"), (7, first, "first")] {
        pair.server
            .handle_command(Command::Read { connection_id: id, stream_id, max_len: 64 }, request, true)
            .unwrap();
        pair.settle();
        match pair.reply(1_000 + request) {
            Reply::Read(Ok(read)) => assert_eq!(read.data, data.as_bytes()),
            other => panic!("unexpected answer: {other:?}"),
        }
    }
}

#[test]
fn unknown_connections_are_answered_with_an_error() {
    let mut pair = Pair::new(false);
    let id = ConnectionId::new(404);
    pair.client.handle_command(Command::OpenStream { connection_id: id }, 1, true).unwrap();
    pair.client
        .handle_command(Command::Close { connection_id: id, error_code: 1, reason: String::new() }, 2, true)
        .unwrap();
    pair.settle();
    assert!(matches!(pair.reply(1), Reply::Stream(Err(_))));
    assert!(matches!(pair.reply(2), Reply::Close(Err(_))));
}

#[test]
fn shutdown_answers_everybody() {
    let mut pair = Pair::new(false);
    let id = pair.connect();
    pair.client.handle_command(Command::AcceptStream { connection_id: id }, 2, true).unwrap();
    pair.client.close_all();
    let mut answered = false;
    for action in pair.client.take_actions() {
        if let Action::Reply { request: 2, reply } = action {
            assert!(matches!(reply, Reply::Stream(Err(_))));
            answered = true;
        }
    }
    assert!(answered);
    assert_eq!(pair.client.len(), 0);
}

#[test]
fn endpoint_rejects_zero_capacity_configuration() {
    let mut config = EndpointConfig::new(loopback(0), 1_200, LIMITS);
    config.command_capacity = 0;
    assert!(matches!(
        config.validate(),
        Err(EndpointError::InvalidCapacity { field: "command_capacity" })
    ));
}

#[test]
fn path_leads_to_its_peer() {
    assert_eq!(PathBinding::new(loopback(7)).peer(), loopback(7));
}

#[test]
fn streams_end_once_and_take_no_more_writes() {
    let mut stream = ReliableStream::new(StreamId::new(4));
    assert!(matches!(stream.poll_read(8), ReadStep::Start { max_len: 8 }));
    assert!(matches!(stream.poll_read(8), ReadStep::Wait));
    stream.read_answered(Some(true));
    assert!(matches!(stream.poll_read(8), ReadStep::Ready));
    assert!(matches!(stream.poll_write(0, 16), WriteStep::Nothing));
    stream.shutdown_finished();
    assert!(matches!(stream.poll_write(4, 16), WriteStep::Broken));
    assert!(matches!(stream.poll_shutdown(), ShutdownStep::Done));
    assert!(matches!(stream.begin_shutdown(), Ok(false)));
}

#[test]
fn endpoint_errors_are_put_in_words() {
    assert_eq!(EndpointError::Io("gone".to_owned()).message(""), "UDP socket error: gone");
    assert_eq!(
        ConnectError::ConnectionClosed { error_code: 20 }.message(""),
        "connection closed with error code 20"
    );
    assert_eq!(
        StreamError::Core(CoreError::StreamLimit).message(""),
        "stream state error: stream limit has been reached"
    );
}
