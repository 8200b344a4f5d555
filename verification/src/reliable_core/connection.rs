//! One connection: what it does with packets, with time and with requests.

use std::collections::VecDeque;

use vstd::prelude::*;

use crate::duration::{Duration, MAX_NANOS};
use crate::reliable_core::config::{connection_config_error, ConnectionConfig, ConnectionRole};
use crate::reliable_core::congestion::greater;
use crate::reliable_core::error::CoreError;
use crate::reliable_core::event::{
    lemma_output_pushed, output_views, ConnectionState, CoreOutput, OutputView,
};
use crate::reliable_core::flow_control::{ReceiveFlowControl, SendFlowControl};
use crate::reliable_core::flush_laws::numbers_given;
use crate::reliable_core::handshake::{HandshakeState, HandshakeTimeout, HandshakeView};
use crate::reliable_core::layout::{elicits, some_elicits};
use crate::reliable_core::stream::{StreamInfo, StreamState};
use crate::reliable_core::streams::{after_read, info_of, opened, StreamManager, StreamView};
use crate::reliable_core::timer::TimerEvent;
use crate::reliable_core::timers::{items_of, slots_follow, TimerState};
use crate::reliable_core::transition::{
    ack_asked, ack_done, ack_follows, ack_taken, acks_done, all_acknowledged, allowed_streams,
    bytes_done, client_greeted, client_hello_answered, client_hello_done, client_hello_noted,
    client_started, close_done, close_prepared, close_received, continues, frame_done,
    frame_follows, frames_done, frames_taken, fresh_handshake, fresh_timers, handshake_ack_done,
    layout_read, layout_written, lemma_acks_stop, lemma_continues_on, lemma_continues_same,
    lemma_frames_stop, lemma_sent_continues, lemma_timers_stop, max_data_done, max_stream_data_done,
    open_done, packet_answered, packet_done, packet_noted, packet_view, ping_done, read_done,
    repeated, reset_done, retry_done, sending, sent_on, server_hello_done, server_hello_noted,
    slot_cleared, start_refused, started, state_set, stream_data_done, stream_open_done,
    stream_read, time_done, time_passed, timer_done, timer_follows, timers_done, timers_set,
    write_done, ConnectionView,
};
use crate::reliable_core::transport::{fresh_transport, FlushIdentity, TransportState};
use crate::time_wheel::wheel::{beyond_reach, in_firing_order, is_earliest, moved, nanos_until};
use crate::time_wheel::{Expired, TimerError};
use crate::wire::{
    AckFrame, ClientHello, ConnectionClose, ConnectionId, Frame, FrameView, HandshakeAck, MaxData,
    MaxStreamData, Packet, PacketType, Ping, Pong, ProtocolError, ResetStream, Retry, ServerHello,
    StreamData, StreamId, StreamOpen, Wire,
};

verus! {

/// The bytes of a read, and whether the stream has ended.
#[derive(Debug, Clone, PartialEq, Eq)]
pub struct ReadResult {
    pub data: Vec<u8>,
    pub eof: bool,
}

/// The connection that was made, as contracts see it.
pub open spec fn spec_made(
    result: Result<Connection, CoreError>,
) -> Result<ConnectionView, CoreError> {
    match result {
        Ok(connection) => Ok(connection@),
        Err(error) => Err(error),
    }
}

/// The bytes of a read and whether the stream has ended, as contracts see them.
pub open spec fn read_view(result: Result<ReadResult, CoreError>) -> Result<
    (Seq<u8>, bool),
    CoreError,
> {
    match result {
        Ok(read) => Ok((read.data@, read.eof)),
        Err(error) => Err(error),
    }
}

/// The streams that this side opened are below the next number, which is one of
/// this side.
spec fn own_streams_below(role: ConnectionRole, streams: Map<u64, StreamView>, next: u64) -> bool {
    &&& next % 2 == role.parity()
    &&& forall|id: u64| #[trigger]
        streams.contains_key(id) && id % 2 == role.parity() ==> id < next
}

/// One connection.
pub struct Connection {
    role: ConnectionRole,
    id: ConnectionId,
    config: ConnectionConfig,
    state: ConnectionState,
    now: Duration,
    streams: StreamManager,
    transport: TransportState,
    handshake: HandshakeState,
    crypto_active: bool,
    timers: TimerState,
    output: VecDeque<CoreOutput>,
    connection_send: SendFlowControl,
    connection_receive: ReceiveFlowControl,
    close_error: Option<u32>,
}

impl View for Connection {
    type V = ConnectionView;

    closed spec fn view(&self) -> ConnectionView {
        ConnectionView {
            role: self.role,
            id: self.id,
            config: self.config,
            state: self.state,
            now: self.now,
            streams: self.streams@,
            next_stream: self.streams.next_number(),
            transport: self.transport@,
            handshake: self.handshake@,
            crypto_active: self.crypto_active,
            timers: self.timers@,
            output: output_views(self.output@),
            send: self.connection_send,
            receive: self.connection_receive,
            close_error: self.close_error,
        }
    }
}

impl Connection {
    /// The parts are right, and no more time was measured than has passed.
    pub closed spec fn well_formed(&self) -> bool {
        &&& self.streams.well_formed()
        &&& self.transport.well_formed()
        &&& self.timers.well_formed()
        &&& self.config.max_datagram_size <= u16::MAX
        &&& self.transport@.rtt.measured_within(self.now@)
        &&& own_streams_below(self.role, self.streams@, self.streams.next_number())
    }

    /// What the laws of acknowledgement ask of a connection holds of each.
    pub proof fn lemma_numbers_given(&self)
        requires
            self.well_formed(),
        ensures
            numbers_given(self@.transport),
    {
        self.transport.lemma_numbers();
    }

    /// A client, whose hello is sent. `public_key` is the key of this side; the
    /// nonce of the handshake is random.
    pub fn new_client<W: Wire>(
        connection_id: ConnectionId,
        config: ConnectionConfig,
        public_key: [u8; 32],
        wire: &W,
    ) -> (result: Result<Self, CoreError>)
        ensures
            result matches Ok(connection) ==> connection.well_formed(),
            match connection_config_error(config) {
                Some(problem) => result == Err::<Connection, CoreError>(
                    CoreError::InvalidConfig(problem),
                ),
                None => result == Err::<Connection, CoreError>(CoreError::RandomnessUnavailable)
                    || exists|handshake: HandshakeView| #[trigger]
                    fresh_handshake(handshake, connection_id, public_key@, config)
                        && client_started(wire, connection_id, config, handshake, spec_made(result)),
            },
    {
        match config.validate() {
            Err(problem) => Err(CoreError::InvalidConfig(problem)),
            Ok(_) => match HandshakeState::new(connection_id, public_key, &config) {
                Ok(handshake) => {
                    let ghost drawn = handshake@;
                    assert(fresh_handshake(drawn, connection_id, public_key@, config));
                    Self::start_client(connection_id, config, handshake, wire)
                },
                Err(error) => Err(error),
            },
        }
    }

    /// A client with a given handshake, whose hello is sent.
    pub fn start_client<W: Wire>(
        connection_id: ConnectionId,
        config: ConnectionConfig,
        handshake: HandshakeState,
        wire: &W,
    ) -> (result: Result<Self, CoreError>)
        ensures
            result matches Ok(connection) ==> connection.well_formed(),
            client_started(wire, connection_id, config, handshake@, spec_made(result)),
    {
        match Self::start(ConnectionRole::Client, connection_id, config, handshake) {
            Err(error) => Err(error),
            Ok(started) => {
                let mut connection = started;
                let ghost first = connection@;
                let timed = connection.handshake.start_client(
                    &connection.config,
                    &mut connection.transport,
                    &mut connection.timers,
                );
                let ghost greeted = connection@;
                assert(client_greeted(first, greeted, timed));
                match timed {
                    Err(error) => {
                        return Err(error);
                    },
                    Ok(_) => {
                        assert(timed->Ok_0 == ());
                    },
                }
                let sent = connection.flush(wire);
                assert(sent_on(wire, greeted, connection@, sent));
                match sent {
                    Err(error) => Err(error),
                    Ok(_) => {
                        assert(sent->Ok_0 == ());
                        Ok(connection)
                    },
                }
            },
        }
    }

    /// A server, which waits for the hello of a client. The nonce of the
    /// handshake is random.
    pub fn new_server(connection_id: ConnectionId, config: ConnectionConfig, public_key: [u8; 32])
        -> (result: Result<Self, CoreError>)
        ensures
            result matches Ok(connection) ==> connection.well_formed(),
            match connection_config_error(config) {
                Some(problem) => result == Err::<Connection, CoreError>(
                    CoreError::InvalidConfig(problem),
                ),
                None => result == Err::<Connection, CoreError>(CoreError::RandomnessUnavailable)
                    || exists|handshake: HandshakeView| #[trigger]
                    fresh_handshake(handshake, connection_id, public_key@, config) && match result {
                        Ok(connection) => start_refused(config) is None && started(
                            connection@,
                            ConnectionRole::Server,
                            connection_id,
                            config,
                            handshake,
                        ),
                        Err(error) => start_refused(config) == Some(error),
                    },
            },
    {
        match config.validate() {
            Err(problem) => Err(CoreError::InvalidConfig(problem)),
            Ok(_) => match HandshakeState::new(connection_id, public_key, &config) {
                Ok(handshake) => {
                    let ghost drawn = handshake@;
                    assert(fresh_handshake(drawn, connection_id, public_key@, config));
                    Self::start(ConnectionRole::Server, connection_id, config, handshake)
                },
                Err(error) => Err(error),
            },
        }
    }

    /// A connection with a given handshake, its idle and keepalive timers set.
    pub fn start(
        role: ConnectionRole,
        id: ConnectionId,
        config: ConnectionConfig,
        handshake: HandshakeState,
    ) -> (result: Result<Self, CoreError>)
        ensures
            match result {
                Ok(connection) => {
                    &&& start_refused(config) is None
                    &&& connection.well_formed()
                    &&& started(connection@, role, id, config, handshake@)
                },
                Err(error) => start_refused(config) == Some(error),
            },
    {
        match config.validate() {
            Err(problem) => {
                return Err(CoreError::InvalidConfig(problem));
            },
            Ok(_) => {},
        }
        let timers = match TimerState::new(&config) {
            Ok(timers) => timers,
            Err(error) => {
                return Err(error);
            },
        };
        assert(fresh_timers(timers@, config));
        let mut connection = Connection {
            role,
            id,
            state: if role == ConnectionRole::Client {
                ConnectionState::Handshaking
            } else {
                ConnectionState::Idle
            },
            now: Duration::zero(),
            streams: StreamManager::new(role.local_stream_parity()),
            transport: TransportState::new(&config),
            handshake,
            crypto_active: false,
            timers,
            output: VecDeque::new(),
            connection_send: SendFlowControl::new(config.initial_connection_window),
            connection_receive: ReceiveFlowControl::new(config.initial_connection_window),
            close_error: None,
            config,
        };
        assert(connection@.output =~= Seq::<OutputView>::empty());
        assert(fresh_transport(connection@.transport, connection.config));
        let ghost unset = connection.timers@;
        match connection.timers.schedule_idle(connection.config.idle_timeout) {
            Ok(_) => {},
            Err(error) => {
                return Err(error);
            },
        }
        match connection.config.keepalive_interval {
            Some(interval) => {
                match connection.timers.schedule_keepalive(interval) {
                    Ok(_) => {},
                    Err(error) => {
                        return Err(error);
                    },
                }
            },
            None => {},
        }
        assert(timers_set(unset, connection@.timers, connection.config));
        Ok(connection)
    }

    /// The name of the connection.
    pub fn connection_id(&self) -> (id: ConnectionId)
        ensures
            id == self@.id,
    {
        self.id
    }

    /// The state of the connection.
    pub fn state(&self) -> (state: ConnectionState)
        ensures
            state == self@.state,
    {
        self.state
    }

    /// The time that has passed.
    pub fn now(&self) -> (now: Duration)
        ensures
            now == self@.now,
    {
        self.now
    }

    /// The settings, as far as they are agreed on.
    pub fn config(&self) -> (config: &ConnectionConfig)
        ensures
            *config == self@.config,
    {
        &self.config
    }

    /// The congestion window.
    pub fn congestion_window(&self) -> (window: u64)
        ensures
            window == self@.transport.congestion.cwnd,
    {
        self.transport.congestion_window()
    }

    /// The bytes on their way.
    pub fn bytes_in_flight(&self) -> (bytes: u64)
        ensures
            bytes == self@.transport.congestion.bytes_in_flight,
    {
        self.transport.bytes_in_flight()
    }

    /// The retransmission timeout.
    pub fn rto(&self) -> (rto: Duration)
        ensures
            rto == self@.transport.rtt.rto,
    {
        self.transport.rto()
    }

    /// Whether nothing waits to be sent or to be acknowledged.
    pub fn is_reliably_flushed(&self) -> (done: bool)
        requires
            self.well_formed(),
        ensures
            done <==> all_acknowledged(self@),
    {
        self.transport.is_reliably_flushed(&self.streams)
    }

    /// The time left until a timer is due.
    pub fn next_deadline(&self) -> (result: Result<Option<Duration>, CoreError>)
        requires
            self.well_formed(),
        ensures
            match result {
                Ok(None) => self@.timers.timers.dom().len() == 0,
                Ok(Some(left)) => self@.timers.timers.dom().len() > 0 && exists|
                    deadline: u64,
                | #[trigger]
                    is_earliest(self@.timers.timers, deadline) && left@
                        == nanos_until(
                        deadline,
                        self@.timers.tick,
                        self@.timers.remainder,
                        self@.timers.tick_nanos,
                    ),
                Err(error) => error == CoreError::Timer(TimerError::DeadlineOverflow),
            },
            result is Err <==> beyond_reach(
                self@.timers.timers,
                self@.timers.tick,
                self@.timers.remainder,
                self@.timers.tick_nanos,
            ),
    {
        self.timers.next_deadline()
    }

    /// A summary of a stream.
    pub fn stream_info(&self, stream_id: StreamId) -> (result: Result<StreamInfo, CoreError>)
        requires
            self.well_formed(),
        ensures
            match result {
                Ok(info) => self@.streams.contains_key(stream_id.value) && info == info_of(
                    self@.streams[stream_id.value],
                ),
                Err(error) => !self@.streams.contains_key(stream_id.value) && error == (
                CoreError::UnknownStream { stream_id }),
            },
    {
        self.streams.info(stream_id)
    }

    /// Takes what was announced.
    pub fn drain_output(&mut self) -> (outputs: Vec<CoreOutput>)
        requires
            old(self).well_formed(),
        ensures
            final(self).well_formed(),
            output_views(outputs@) == old(self)@.output,
            final(self)@ == (ConnectionView { output: Seq::empty(), ..old(self)@ }),
    {
        let ghost all = self.output@;
        let mut outputs: Vec<CoreOutput> = Vec::new();
        while self.output.len() > 0
            invariant
                outputs@ + self.output@ == all,
                self.well_formed(),
                *self == (Connection { output: self.output, ..*old(self) }),
            decreases self.output@.len(),
        {
            let ghost rest = self.output@;
            match self.output.pop_front() {
                Some(output) => {
                    outputs.push(output);
                },
                None => {},
            }
            assert(outputs@ + self.output@ =~= all);
        }
        assert(outputs@ =~= all);
        assert(self@.output =~= Seq::empty());
        outputs
    }

    /// Takes a datagram that came.
    pub fn on_datagram_bytes<W: Wire>(&mut self, bytes: &[u8], wire: &W) -> (result: Result<
        (),
        CoreError,
    >)
        requires
            old(self).well_formed(),
            old(self)@.now@ * 8 <= MAX_NANOS,
        ensures
            final(self).well_formed(),
            continues(old(self)@, final(self)@),
            final(self)@.now == old(self)@.now,
            exists|encrypted: Result<bool, ProtocolError>, packet: Result<Packet, ProtocolError>|
                #[trigger]
                layout_read(old(self)@, bytes, wire, encrypted, packet) && bytes_done(
                    wire,
                    old(self)@,
                    encrypted,
                    packet_view(packet),
                    final(self)@,
                    result,
                ),
    {
        let ghost first = self@;
        let limit: usize = self.config.max_datagram_size;
        let flags = wire.is_encrypted(bytes, limit);
        let ghost no_packet: Result<Packet, ProtocolError> = Err(
            ProtocolError::Rejected(arbitrary()),
        );
        proof {
            lemma_continues_same(first, first);
        }
        let encrypted: bool = match flags {
            Ok(encrypted) => encrypted,
            Err(problem) => {
                assert(layout_read(first, bytes, wire, flags, no_packet));
                return Err(CoreError::Protocol(problem));
            },
        };
        match self.accepts_flags(encrypted) {
            Ok(_) => {},
            Err(error) => {
                assert(layout_read(first, bytes, wire, flags, no_packet));
                return Err(error);
            },
        }
        let decoded = if encrypted {
            wire.decode_sealed(bytes, limit)
        } else {
            wire.decode(bytes, limit)
        };
        assert(layout_read(first, bytes, wire, flags, decoded));
        match decoded {
            Err(problem) => Err(CoreError::Protocol(problem)),
            Ok(packet) => self.on_datagram(packet, wire),
        }
    }

    /// Lays a packet out, encrypted where it has to be. What the bytes are is up
    /// to the layout.
    pub fn encode_packet<W: Wire>(&self, packet: &Packet, wire: &W) -> (result: Result<
        Vec<u8>,
        CoreError,
    >)
        ensures
            exists|encoded: Result<Vec<u8>, ProtocolError>| #[trigger]
                layout_written(self@, packet, wire, encoded) && result == match encoded {
                    Ok(bytes) => Ok::<Vec<u8>, CoreError>(bytes),
                    Err(problem) => Err::<Vec<u8>, CoreError>(CoreError::Protocol(problem)),
                },
    {
        let limit: usize = self.config.max_datagram_size;
        let encoded = if self.encrypts(packet.packet_type) {
            wire.encode_sealed(packet, limit)
        } else {
            wire.encode(packet, limit)
        };
        assert(layout_written(self@, packet, wire, encoded));
        match encoded {
            Ok(bytes) => Ok(bytes),
            Err(problem) => Err(CoreError::Protocol(problem)),
        }
    }

    /// Whether a packet of this type is encrypted when it is laid out.
    pub fn encrypts(&self, packet_type: PacketType) -> (encrypted: bool)
        ensures
            encrypted <==> self@.crypto_active && (self@.state == ConnectionState::Established
                || self@.state == ConnectionState::Closing) && (packet_type == PacketType::Data
                || packet_type == PacketType::Close),
    {
        self.crypto_active && (self.state == ConnectionState::Established || self.state
            == ConnectionState::Closing) && (packet_type == PacketType::Data || packet_type
            == PacketType::Close)
    }

    /// Whether a packet with these flags can be read: an encrypted one only once
    /// the keys are in use.
    pub fn accepts_flags(&self, encrypted: bool) -> (result: Result<(), CoreError>)
        ensures
            result is Ok <==> !encrypted || self@.crypto_active,
            result matches Err(error) ==> error == (CoreError::InvalidState {
                operation: "receive encrypted packet before handshake completion",
            }),
    {
        if encrypted && !self.crypto_active {
            Err(
                CoreError::InvalidState {
                    operation: "receive encrypted packet before handshake completion",
                },
            )
        } else {
            Ok(())
        }
    }

    /// Takes a packet that came. The sums of the round-trip time must not pass
    /// the longest duration.
    pub fn on_datagram<W: Wire>(&mut self, packet: Packet, wire: &W) -> (result: Result<
        (),
        CoreError,
    >)
        requires
            old(self).well_formed(),
            old(self)@.now@ * 8 <= MAX_NANOS,
        ensures
            final(self).well_formed(),
            continues(old(self)@, final(self)@),
            final(self)@.now == old(self)@.now,
            packet_done(wire, old(self)@, packet@, final(self)@, result),
    {
        proof {
            lemma_continues_same(self@, self@);
        }
        if self.state == ConnectionState::Closed {
            return Err(CoreError::InvalidState { operation: "receive on closed connection" });
        }
        if packet.connection_id != self.id {
            return Err(CoreError::ConnectionIdMismatch);
        }
        let ghost first = self@;
        let ghost view = packet@;
        let is_new: bool = match self.note_packet(&packet) {
            Ok(is_new) => is_new,
            Err(error) => {
                return Err(error);
            },
        };
        let ghost noted = self@;
        let ack_eliciting: bool = Self::asks_for_ack(&packet.frames, Ghost(view.frames), wire);
        match self.take_acks(&packet.frames, Ghost(view.frames), wire) {
            Ok(_) => {},
            Err(error) => {
                proof {
                    lemma_continues_on(first, noted, self@);
                }
                return Err(error);
            },
        }
        let ghost acked = self@;
        proof {
            lemma_continues_on(first, noted, acked);
        }
        if is_new {
            let outcome = self.take_frames(
                packet.packet_type,
                packet.frames,
                Ghost(view.frames),
                wire,
            );
            match outcome {
                Ok(_) => {
                    assert(outcome->Ok_0 == ());
                },
                Err(error) => {
                    proof {
                        lemma_continues_on(first, acked, self@);
                        assert(frames_taken(wire, first, view, acked, self@, Err(error)));
                    }
                    return Err(error);
                },
            }
        }
        let ghost taken = self@;
        proof {
            lemma_continues_on(first, acked, taken);
            assert(frames_taken(wire, first, view, acked, taken, Ok(())));
        }
        let result = self.answer(ack_eliciting, wire);
        proof {
            lemma_continues_on(first, taken, self@);
        }
        result
    }

    /// Starts the idle timer again and notes the number of a packet; `false` if
    /// it has come before.
    fn note_packet(&mut self, packet: &Packet) -> (result: Result<bool, CoreError>)
        requires
            old(self).well_formed(),
        ensures
            final(self).well_formed(),
            continues(old(self)@, final(self)@),
            final(self)@.now == old(self)@.now,
            packet_noted(old(self)@, packet@, final(self)@, sending(result)),
            result matches Ok(is_new) ==> is_new == !repeated(old(self)@, packet@),
    {
        let ghost first = self@;
        match self.timers.schedule_idle(self.config.idle_timeout) {
            Ok(_) => {},
            Err(error) => {
                proof {
                    lemma_continues_same(first, self@);
                }
                return Err(error);
            },
        }
        let is_new: bool = if packet.packet_type == PacketType::Retry {
            true
        } else {
            self.transport.record_received(packet.packet_number, self.now)
        };
        proof {
            lemma_continues_same(first, self@);
        }
        Ok(is_new)
    }

    /// Asks for an acknowledgement if a frame did, and sends what can be sent.
    fn answer<W: Wire>(&mut self, ack_eliciting: bool, wire: &W) -> (result: Result<(), CoreError>)
        requires
            old(self).well_formed(),
        ensures
            final(self).well_formed(),
            continues(old(self)@, final(self)@),
            final(self)@.now == old(self)@.now,
            packet_answered(wire, old(self)@, ack_eliciting, final(self)@, result),
    {
        let ghost first = self@;
        if ack_eliciting {
            match self.transport.schedule_ack(&self.config, &mut self.timers) {
                Ok(_) => {},
                Err(error) => {
                    proof {
                        lemma_continues_same(first, self@);
                        assert(ack_asked(first, ack_eliciting, self@, Err(error)));
                    }
                    return Err(error);
                },
            }
        }
        let ghost asked = self@;
        let result = self.flush(wire);
        proof {
            assert(ack_asked(first, ack_eliciting, asked, Ok(())));
            lemma_continues_same(first, asked);
            lemma_sent_continues(wire, asked, self@, result);
            lemma_continues_on(first, asked, self@);
        }
        result
    }

    /// Whether the layout says of a frame that it asks for an acknowledgement.
    fn asks_for_ack<W: Wire>(
        frames: &Vec<Frame>,
        Ghost(views): Ghost<Seq<FrameView>>,
        wire: &W,
    ) -> (asks: bool)
        requires
            views.len() == frames@.len(),
            forall|i: int| 0 <= i < views.len() ==> views[i] == (#[trigger] frames@[i])@,
        ensures
            some_elicits(wire, views, asks),
    {
        let mut index: usize = 0;
        while index < frames.len()
            invariant
                index <= frames@.len(),
                views.len() == frames@.len(),
                forall|i: int| 0 <= i < views.len() ==> views[i] == (#[trigger] frames@[i])@,
                forall|i: int| 0 <= i < index ==> elicits(wire, #[trigger] views[i], false),
            decreases frames@.len() - index,
        {
            let asks: bool = wire.is_ack_eliciting(&frames[index]);
            assert(views[index as int] == frames@[index as int]@);
            assert(elicits(wire, views[index as int], asks));
            if asks {
                return true;
            }
            index = index + 1;
        }
        false
    }

    /// Takes the acknowledgements among the frames.
    fn take_acks<W: Wire>(
        &mut self,
        frames: &Vec<Frame>,
        Ghost(views): Ghost<Seq<FrameView>>,
        wire: &W,
    ) -> (result: Result<(), CoreError>)
        requires
            old(self).well_formed(),
            old(self)@.now@ * 8 <= MAX_NANOS,
            views.len() == frames@.len(),
            forall|i: int| 0 <= i < views.len() ==> views[i] == (#[trigger] frames@[i])@,
        ensures
            final(self).well_formed(),
            continues(old(self)@, final(self)@),
            final(self)@.now == old(self)@.now,
            acks_done(wire, old(self)@, views, views.len() as int, final(self)@, result),
    {
        let ghost first = self@;
        proof {
            lemma_continues_same(first, first);
            assert(acks_done(wire, first, views, 0, first, Ok(())));
        }
        let mut index: usize = 0;
        while index < frames.len()
            invariant
                index <= frames@.len(),
                first == old(self)@,
                self.well_formed(),
                self@.now == first.now,
                first.now@ * 8 <= MAX_NANOS,
                continues(first, self@),
                views.len() == frames@.len(),
                forall|i: int| 0 <= i < views.len() ==> views[i] == (#[trigger] frames@[i])@,
                acks_done(wire, first, views, index as int, self@, Ok(())),
            decreases frames@.len() - index,
        {
            let ghost before = self@;
            match &frames[index] {
                Frame::Ack(ack) => {
                    let outcome = self.take_ack(ack, wire);
                    proof {
                        lemma_continues_on(first, before, self@);
                        assert(views[index as int] == FrameView::Ack(ack@));
                        let next = index + 1;
                        assert(ack_follows(wire, before, Ok(()), views[next - 1], self@, outcome));
                        assert(acks_done(wire, first, views, next, self@, outcome));
                    }
                    match outcome {
                        Ok(_) => {
                            assert(outcome->Ok_0 == ());
                        },
                        Err(error) => {
                            proof {
                                lemma_acks_stop(
                                    wire,
                                    first,
                                    views,
                                    index + 1,
                                    views.len() as int,
                                    self@,
                                    outcome,
                                );
                            }
                            return Err(error);
                        },
                    }
                },
                _ => {
                    proof {
                        let next = index + 1;
                        assert(ack_follows(wire, before, Ok(()), views[next - 1], self@, Ok(())));
                        assert(acks_done(wire, first, views, next, self@, Ok(())));
                    }
                },
            }
            index = index + 1;
        }
        Ok(())
    }

    /// Takes one acknowledgement.
    fn take_ack<W: Wire>(&mut self, ack: &AckFrame, wire: &W) -> (result: Result<(), CoreError>)
        requires
            old(self).well_formed(),
            old(self)@.now@ * 8 <= MAX_NANOS,
        ensures
            final(self).well_formed(),
            continues(old(self)@, final(self)@),
            final(self)@.now == old(self)@.now,
            ack_taken(wire, old(self)@, ack@, final(self)@, result),
    {
        let ghost first = self@;
        let checked = wire.check_ack(ack);
        let ghost given = checked;
        let outcome = self.transport.apply_ack(
            ack,
            checked,
            self.now,
            &self.config,
            &mut self.timers,
            &mut self.streams,
        );
        proof {
            lemma_continues_same(first, self@);
        }
        match outcome {
            Ok(_) => {
                assert(ack_done(first, ack@, given, self@, Ok(())));
                Ok(())
            },
            Err(error) => {
                match error {
                    CoreError::RetransmissionLimit => {
                        self.close_error = Some(3);
                        self.set_state(ConnectionState::Closing);
                        assert(self@.output.subrange(0, first.output.len() as int)
                            =~= first.output);
                    },
                    _ => {},
                }
                assert(ack_done(first, ack@, given, self@, Err(error)));
                Err(error)
            },
        }
    }

    /// Takes the frames in order.
    fn take_frames<W: Wire>(
        &mut self,
        packet_type: PacketType,
        frames: Vec<Frame>,
        Ghost(views): Ghost<Seq<FrameView>>,
        wire: &W,
    ) -> (result: Result<(), CoreError>)
        requires
            old(self).well_formed(),
            views.len() == frames@.len(),
            forall|i: int| 0 <= i < views.len() ==> views[i] == (#[trigger] frames@[i])@,
        ensures
            final(self).well_formed(),
            continues(old(self)@, final(self)@),
            final(self)@.now == old(self)@.now,
            frames_done(
                wire,
                old(self)@,
                packet_type,
                views,
                views.len() as int,
                final(self)@,
                result,
            ),
    {
        let ghost first = self@;
        let mut rest: Vec<Frame> = frames;
        let ghost mut count: int = 0;
        proof {
            lemma_continues_same(first, first);
            assert(frames_done(wire, first, packet_type, views, 0, first, Ok(())));
        }
        loop
            invariant
                0 <= count <= views.len(),
                rest@.len() == views.len() - count,
                forall|i: int|
                    0 <= i < rest@.len() ==> (#[trigger] rest@[i])@ == views[count + i],
                self.well_formed(),
                first == old(self)@,
                self@.now == first.now,
                continues(first, self@),
                frames_done(wire, first, packet_type, views, count, self@, Ok(())),
            decreases rest@.len(),
        {
            let ghost before = self@;
            if rest.len() == 0 {
                return Ok(());
            }
            let frame = rest.remove(0);
            assert(frame@ == views[count]);
            let outcome = self.process_frame(packet_type, frame, wire);
            proof {
                lemma_continues_on(first, before, self@);
                let next = count + 1;
                assert(frame_follows(
                    wire,
                    before,
                    Ok(()),
                    packet_type,
                    views[next - 1],
                    self@,
                    outcome,
                ));
                assert(frames_done(wire, first, packet_type, views, next, self@, outcome));
                count = next;
            }
            match outcome {
                Ok(_) => {
                    assert(outcome->Ok_0 == ());
                },
                Err(error) => {
                    proof {
                        lemma_frames_stop(
                            wire,
                            first,
                            packet_type,
                            views,
                            count,
                            views.len() as int,
                            self@,
                            outcome,
                        );
                    }
                    return Err(error);
                },
            }
        }
    }

    /// Lets time pass: timers that are due do what they are for.
    pub fn advance_time<W: Wire>(&mut self, elapsed: Duration, wire: &W) -> (result: Result<
        (),
        CoreError,
    >)
        requires
            old(self).well_formed(),
        ensures
            final(self).well_formed(),
            continues(old(self)@, final(self)@),
            old(self)@.now@ + elapsed@ <= MAX_NANOS ==> final(self)@.now@ == old(self)@.now@
                + elapsed@,
            time_done(wire, old(self)@, elapsed, final(self)@, result),
    {
        let ghost first = self@;
        proof {
            lemma_continues_same(first, first);
        }
        match self.now.checked_add(elapsed) {
            Some(now) => {
                self.now = now;
            },
            None => {
                return Err(CoreError::InvalidState { operation: "advance clock" });
            },
        }
        let ghost timers_before = self.timers@;
        let advanced = self.timers.advance(elapsed);
        proof {
            lemma_continues_same(first, self@);
        }
        let events: Vec<TimerEvent> = match advanced {
            Ok(events) => events,
            Err(error) => {
                return Err(error);
            },
        };
        let ghost started = self@;
        proof {
            let ticks = (timers_before.remainder + elapsed@) / timers_before.tick_nanos;
            let gone = choose|gone: Seq<Expired<TimerEvent>>| #[trigger]
                moved(timers_before.timers, self.timers@.timers, gone) && in_firing_order(
                    gone,
                    ticks,
                ) && slots_follow(timers_before, self.timers@, gone, ticks) && events@ == items_of(
                    gone,
                );
            assert(moved(first.timers.timers, started.timers.timers, gone));
            assert(time_passed(first, elapsed, events@, started));
            assert(timers_done(wire, started, events@, 0, started, Ok(())));
        }
        let mut index: usize = 0;
        while index < events.len()
            invariant
                index <= events@.len(),
                self.well_formed(),
                first == old(self)@,
                self@.now == started.now,
                started.now@ == first.now@ + elapsed@,
                first.now@ + elapsed@ <= MAX_NANOS,
                first.timers.remainder + elapsed@ <= u64::MAX,
                first.timers.tick + (first.timers.remainder + elapsed@) / first.timers.tick_nanos
                    <= u64::MAX,
                continues(first, self@),
                time_passed(first, elapsed, events@, started),
                timers_done(wire, started, events@, index as int, self@, Ok(())),
            decreases events@.len() - index,
        {
            let event: TimerEvent = events[index];
            let ghost before = self@;
            self.timers.clear_slot(event);
            let ghost cleared = self@;
            proof {
                assert(cleared == slot_cleared(before, event));
                lemma_continues_on(first, before, cleared);
            }
            let outcome = self.process_timer(event, wire);
            proof {
                lemma_continues_on(first, cleared, self@);
                let next = index + 1;
                assert(timer_follows(wire, before, Ok(()), events@[next - 1], self@, outcome));
                assert(timers_done(wire, started, events@, next, self@, outcome));
            }
            match outcome {
                Ok(_) => {
                    assert(outcome->Ok_0 == ());
                },
                Err(error) => {
                    proof {
                        lemma_timers_stop(
                            wire,
                            started,
                            events@,
                            index + 1,
                            events@.len() as int,
                            self@,
                            outcome,
                        );
                    }
                    return Err(error);
                },
            }
            index = index + 1;
        }
        let ghost done = self@;
        let result = self.flush(wire);
        proof {
            lemma_sent_continues(wire, done, self@, result);
            lemma_continues_on(first, done, self@);
        }
        result
    }

    /// Opens a stream.
    pub fn open_stream<W: Wire>(&mut self, wire: &W) -> (result: Result<StreamId, CoreError>)
        requires
            old(self).well_formed(),
        ensures
            final(self).well_formed(),
            continues(old(self)@, final(self)@),
            final(self)@.now == old(self)@.now,
            open_done(wire, old(self)@, final(self)@, result),
    {
        let ghost first = self@;
        proof {
            lemma_continues_same(self@, self@);
        }
        match self.ensure_established("open stream") {
            Ok(_) => {},
            Err(error) => {
                return Err(error);
            },
        }
        if self.streams.len() >= self.effective_max_streams() as usize {
            return Err(CoreError::StreamLimit);
        }
        let window: u64 = self.handshake.peer_initial_stream_window();
        let stream_id = match self.streams.open_local(
            self.role,
            window,
            self.config.initial_stream_window,
        ) {
            Ok(id) => id,
            Err(error) => {
                return Err(error);
            },
        };
        self.transport.queue(
            Frame::StreamOpen(
                StreamOpen { stream_id, initial_receive_window: window, bidirectional: true },
            ),
        );
        let ghost prepared = self@;
        let result = self.flush(wire);
        proof {
            lemma_sent_continues(wire, prepared, self@, result);
            assert(opened(
                prepared.streams[first.next_stream],
                StreamId { value: first.next_stream },
                true,
                first.handshake.peer_initial_stream_window,
                first.config.initial_stream_window,
            ));
        }
        match result {
            Ok(_) => Ok(stream_id),
            Err(error) => Err(error),
        }
    }

    /// Writes to a stream.
    pub fn write_stream<W: Wire>(&mut self, stream_id: StreamId, data: &[u8], fin: bool, wire: &W)
        -> (result: Result<usize, CoreError>)
        requires
            old(self).well_formed(),
        ensures
            final(self).well_formed(),
            continues(old(self)@, final(self)@),
            final(self)@.now == old(self)@.now,
            write_done(wire, old(self)@, stream_id, data@, fin, final(self)@, result),
    {
        proof {
            lemma_continues_same(self@, self@);
        }
        match self.ensure_established("write stream") {
            Ok(_) => {},
            Err(error) => {
                return Err(error);
            },
        }
        let max_chunk: usize = self.max_stream_data_chunk();
        let count: usize = match self.streams.write(
            stream_id,
            data,
            fin,
            self.config.max_send_buffer,
            max_chunk,
        ) {
            Ok(count) => count,
            Err(error) => {
                return Err(error);
            },
        };
        let ghost prepared = self@;
        let result = self.flush(wire);
        proof {
            lemma_sent_continues(wire, prepared, self@, result);
        }
        match result {
            Ok(_) => Ok(count),
            Err(error) => Err(error),
        }
    }

    /// Reads from a stream.
    pub fn read_stream<W: Wire>(
        &mut self,
        stream_id: StreamId,
        max_len: usize,
        wire: &W,
    ) -> (result:
        Result<ReadResult, CoreError>)
        requires
            old(self).well_formed(),
        ensures
            final(self).well_formed(),
            continues(old(self)@, final(self)@),
            final(self)@.now == old(self)@.now,
            read_done(wire, old(self)@, stream_id, max_len, final(self)@, read_view(result)),
    {
        let ghost first = self@;
        proof {
            lemma_continues_same(self@, self@);
        }
        let (data, eof, window_update) = match self.streams.read(stream_id, max_len) {
            Ok(read) => read.into_parts(),
            Err(error) => {
                return Err(error);
            },
        };
        match window_update {
            Some(max_offset) => {
                self.transport.queue(Frame::MaxStreamData(MaxStreamData { stream_id, max_offset }));
            },
            None => {},
        }
        if data.len() > 0 {
            let _ = self.connection_receive.consume(data.len());
        }
        if eof {
            proof {
                lemma_output_pushed(self.output@, CoreOutput::StreamFinished(stream_id));
            }
            self.output.push_back(CoreOutput::StreamFinished(stream_id));
        }
        let ghost taken = self@;
        proof {
            let after = after_read(first.streams[stream_id.value], max_len);
            assert(stream_read(first, stream_id, after, data@.len(), taken));
            assert(taken.output.subrange(0, first.output.len() as int) =~= first.output);
        }
        let result = self.flush(wire);
        proof {
            lemma_sent_continues(wire, taken, self@, result);
            lemma_continues_on(first, taken, self@);
        }
        match result {
            Ok(_) => Ok(ReadResult { data, eof }),
            Err(error) => Err(error),
        }
    }

    /// Ends the connection.
    pub fn close<W: Wire>(&mut self, error_code: u32, reason: String, wire: &W) -> (result: Result<
        (),
        CoreError,
    >)
        requires
            old(self).well_formed(),
        ensures
            final(self).well_formed(),
            continues(old(self)@, final(self)@),
            final(self)@.now == old(self)@.now,
            close_done(wire, old(self)@, error_code, reason@, final(self)@, result),
    {
        if self.state == ConnectionState::Closed {
            assert(self@.output.subrange(0, self@.output.len() as int) =~= self@.output);
            return Ok(());
        }
        let ghost first = self@;
        self.close_error = Some(error_code);
        self.set_state(ConnectionState::Closing);
        let ghost text = reason@;
        self.transport.queue(
            Frame::ConnectionClose(ConnectionClose { error_code, frame_type: 0, reason }),
        );
        proof {
            assert(self@.output.subrange(0, first.output.len() as int) =~= first.output);
        }
        match self.timers.schedule_close(self.config.close_timeout) {
            Ok(_) => {},
            Err(error) => {
                proof {
                    assert(close_prepared(
                        first,
                        error_code,
                        text,
                        self@,
                        Err::<(), CoreError>(error),
                    ));
                }
                return Err(error);
            },
        }
        let ghost prepared = self@;
        let result = self.flush(wire);
        proof {
            assert(close_prepared(first, error_code, text, prepared, Ok::<(), CoreError>(())));
            lemma_sent_continues(wire, prepared, self@, result);
            lemma_continues_on(first, prepared, self@);
        }
        result
    }

    /// Takes one frame.
    pub fn process_frame<W: Wire>(&mut self, packet_type: PacketType, frame: Frame, wire: &W)
        -> (result: Result<(), CoreError>)
        requires
            old(self).well_formed(),
        ensures
            final(self).well_formed(),
            final(self)@.now == old(self)@.now,
            frame_done(wire, old(self)@, packet_type, frame@, final(self)@, result),
            continues(old(self)@, final(self)@),
    {
        let ghost first = self@;
        proof {
            assert(first.output.subrange(0, first.output.len() as int) =~= first.output);
        }
        match frame {
            Frame::ClientHello(hello) => self.process_client_hello(packet_type, hello, wire),
            Frame::ServerHello(hello) => self.process_server_hello(packet_type, hello, wire),
            Frame::HandshakeAck(ack) => self.process_handshake_ack(packet_type, ack, wire),
            Frame::Retry(retry) => self.process_retry(packet_type, retry),
            Frame::StreamOpen(open) => self.process_stream_open(packet_type, open),
            Frame::StreamData(data) => self.process_stream_data(packet_type, data),
            Frame::ResetStream(reset) => self.process_reset_stream(packet_type, reset),
            Frame::MaxStreamData(update) => self.process_max_stream_data(packet_type, update),
            Frame::MaxData(update) => self.process_max_data(packet_type, update),
            Frame::Ping(ping) => self.process_ping(packet_type, ping),
            Frame::Pong(_) => Ok(()),
            Frame::ConnectionClose(close) => self.process_connection_close(packet_type, close),
            Frame::Ack(_) => Ok(()),
        }
    }

    fn process_client_hello<W: Wire>(
        &mut self,
        packet_type: PacketType,
        hello: ClientHello,
        wire: &W,
    ) -> (result: Result<(), CoreError>)
        requires
            old(self).well_formed(),
        ensures
            final(self).well_formed(),
            final(self)@.now == old(self)@.now,
            frame_done(
                wire,
                old(self)@,
                packet_type,
                FrameView::ClientHello(hello@),
                final(self)@,
                result,
            ),
            continues(old(self)@, final(self)@),
    {
        let ghost first = self@;
        let ghost view = hello@;
        proof {
            assert(first.output.subrange(0, first.output.len() as int) =~= first.output);
        }
        let (request, max_offset) = match self.handshake.begin_client_hello(
            self.role,
            packet_type,
            &hello,
            self.state,
            &mut self.config,
        ) {
            Ok(parts) => parts,
            Err(error) => {
                return Err(error);
            },
        };
        let exchange = wire.exchange(&request);
        let ghost given = exchange;
        assert(self@ =~= client_hello_noted(first, view));
        let (frame, next_state) = match self.handshake.finish_client_hello(
            hello,
            self.state,
            &self.config,
            exchange,
        ) {
            Ok(parts) => parts,
            Err(error) => {
                assert(client_hello_done(first, view, given, self@, Err::<(), CoreError>(error)));
                return Err(error);
            },
        };
        match max_offset {
            Some(offset) => {
                self.connection_send.set_max_offset(offset);
            },
            None => {},
        }
        self.handshake.set_frame(frame.copy());
        self.transport.queue(frame);
        match self.activate_crypto() {
            Ok(_) => {},
            Err(error) => {
                return Err(error);
            },
        }
        proof {
            assert(self@ =~= client_hello_answered(first, view, given->Ok_0));
        }
        match next_state {
            Some(next_state) => {
                match self.timers.schedule_handshake(self.config.handshake_timeout) {
                    Ok(_) => {},
                    Err(error) => {
                        assert(client_hello_done(
                            first,
                            view,
                            given,
                            self@,
                            Err::<(), CoreError>(error),
                        ));
                        return Err(error);
                    },
                }
                self.set_state(next_state);
            },
            None => {},
        }
        proof {
            assert(client_hello_done(first, view, given, self@, Ok::<(), CoreError>(())));
            assert(self@.output.subrange(0, first.output.len() as int) =~= first.output);
        }
        Ok(())
    }

    fn process_server_hello<W: Wire>(
        &mut self,
        packet_type: PacketType,
        hello: ServerHello,
        wire: &W,
    ) -> (result: Result<(), CoreError>)
        requires
            old(self).well_formed(),
        ensures
            final(self).well_formed(),
            final(self)@.now == old(self)@.now,
            frame_done(
                wire,
                old(self)@,
                packet_type,
                FrameView::ServerHello(hello@),
                final(self)@,
                result,
            ),
            continues(old(self)@, final(self)@),
    {
        let ghost first = self@;
        let ghost view = hello@;
        proof {
            assert(first.output.subrange(0, first.output.len() as int) =~= first.output);
        }
        let request = match self.handshake.begin_server_hello(
            self.role,
            packet_type,
            &hello,
            self.state,
            &mut self.config,
        ) {
            Ok(request) => request,
            Err(error) => {
                return Err(error);
            },
        };
        assert(self@ =~= server_hello_noted(first, view));
        let exchange = wire.exchange(&request);
        let ghost given = exchange;
        let (frame, max_offset) = match self.handshake.finish_server_hello(hello, exchange) {
            Ok(parts) => parts,
            Err(error) => {
                assert(server_hello_done(first, view, given, self@, Err::<(), CoreError>(error)));
                return Err(error);
            },
        };
        self.connection_send.set_max_offset(max_offset);
        self.handshake.set_frame(frame.copy());
        self.transport.queue(frame);
        self.timers.cancel_handshake();
        self.set_state(ConnectionState::Established);
        match self.activate_crypto() {
            Ok(_) => {},
            Err(error) => {
                return Err(error);
            },
        }
        proof {
            assert(server_hello_done(first, view, given, self@, Ok::<(), CoreError>(())));
            assert(self@.output.subrange(0, first.output.len() as int) =~= first.output);
        }
        Ok(())
    }

    fn process_handshake_ack<W: Wire>(
        &mut self,
        packet_type: PacketType,
        ack: HandshakeAck,
        wire: &W,
    ) -> (result: Result<(), CoreError>)
        requires
            old(self).well_formed(),
        ensures
            final(self).well_formed(),
            final(self)@.now == old(self)@.now,
            frame_done(
                wire,
                old(self)@,
                packet_type,
                FrameView::HandshakeAck {
                    cookie: ack.cookie@,
                    client_finished: ack.client_finished@,
                },
                final(self)@,
                result,
            ),
            continues(old(self)@, final(self)@),
    {
        let ghost first = self@;
        proof {
            assert(first.output.subrange(0, first.output.len() as int) =~= first.output);
        }
        let hash = match self.handshake.begin_handshake_ack(
            self.role,
            packet_type,
            &ack,
            self.state,
        ) {
            Ok(hash) => hash,
            Err(error) => {
                return Err(error);
            },
        };
        let verified = wire.verify_client(&hash, &ack.client_finished);
        let ghost given = verified;
        match verified {
            Ok(_) => {},
            Err(problem) => {
                assert(handshake_ack_done(
                    first,
                    given,
                    self@,
                    Err::<(), CoreError>(CoreError::Crypto(problem)),
                ));
                return Err(CoreError::Crypto(problem));
            },
        }
        self.timers.cancel_handshake();
        self.set_state(ConnectionState::Established);
        match self.activate_crypto() {
            Ok(_) => {},
            Err(error) => {
                return Err(error);
            },
        }
        proof {
            assert(handshake_ack_done(first, given, self@, Ok::<(), CoreError>(())));
            assert(self@.output.subrange(0, first.output.len() as int) =~= first.output);
        }
        Ok(())
    }

    fn process_retry(&mut self, packet_type: PacketType, retry: Retry) -> (result: Result<
        (),
        CoreError,
    >)
        requires
            old(self).well_formed(),
        ensures
            final(self).well_formed(),
            final(self)@.now == old(self)@.now,
            retry_done(old(self)@, packet_type, retry.cookie@, final(self)@, result),
            continues(old(self)@, final(self)@),
    {
        let ghost first = self@;
        proof {
            assert(first.output.subrange(0, first.output.len() as int) =~= first.output);
        }
        let frame = match self.handshake.receive_retry(
            self.role,
            packet_type,
            retry,
            self.state,
            &mut self.config,
        ) {
            Ok(frame) => frame,
            Err(error) => {
                return Err(error);
            },
        };
        self.transport.queue_front(frame);
        self.timers.schedule_handshake(self.config.handshake_timeout)
    }

    fn process_stream_open(&mut self, packet_type: PacketType, open: StreamOpen) -> (result: Result<
        (),
        CoreError,
    >)
        requires
            old(self).well_formed(),
        ensures
            final(self).well_formed(),
            final(self)@.now == old(self)@.now,
            stream_open_done(old(self)@, packet_type, open, final(self)@, result),
            continues(old(self)@, final(self)@),
    {
        let ghost first = self@;
        proof {
            assert(first.output.subrange(0, first.output.len() as int) =~= first.output);
        }
        if packet_type != PacketType::Data || self.state != ConnectionState::Established {
            return Err(CoreError::InvalidPacketType);
        }
        if open.stream_id.value % 2 != self.role.peer_stream_parity() {
            return Err(CoreError::InvalidStreamId { stream_id: open.stream_id });
        }
        match self.streams.send_window(open.stream_id) {
            Ok(existing_window) => {
                if existing_window != open.initial_receive_window {
                    return Err(
                        CoreError::InvalidState {
                            operation: "stream was opened with different parameters",
                        },
                    );
                }
                return Ok(());
            },
            Err(_) => {},
        }
        if self.streams.len() >= self.effective_max_streams() as usize {
            return Err(CoreError::StreamLimit);
        }
        match self.streams.insert(
            open.stream_id,
            open.bidirectional,
            open.initial_receive_window,
            self.role.peer_stream_parity(),
            self.config.initial_stream_window,
        ) {
            Ok(_) => {},
            Err(error) => {
                return Err(error);
            },
        }
        proof {
            lemma_output_pushed(self.output@, CoreOutput::StreamOpened(open.stream_id));
        }
        self.output.push_back(CoreOutput::StreamOpened(open.stream_id));
        assert(self@.output.subrange(0, first.output.len() as int) =~= first.output);
        Ok(())
    }

    fn process_stream_data(&mut self, packet_type: PacketType, data: StreamData) -> (result: Result<
        (),
        CoreError,
    >)
        requires
            old(self).well_formed(),
        ensures
            final(self).well_formed(),
            final(self)@.now == old(self)@.now,
            stream_data_done(old(self)@, packet_type, data@, final(self)@, result),
            continues(old(self)@, final(self)@),
    {
        let ghost first = self@;
        let ghost id = data.stream_id.value;
        proof {
            assert(first.output.subrange(0, first.output.len() as int) =~= first.output);
        }
        if packet_type != PacketType::Data || self.state != ConnectionState::Established {
            return Err(CoreError::InvalidPacketType);
        }
        let new_bytes: usize = match self.streams.new_data_bytes(
            &data,
            self.config.max_receive_buffer,
        ) {
            Ok(count) => count,
            Err(error) => {
                return Err(error);
            },
        };
        let connection_end: u64 = match self.connection_receive.unique_received().checked_add(
            new_bytes as u64,
        ) {
            Some(end) => end,
            None => {
                return Err(CoreError::FlowControlViolation { stream_id: None });
            },
        };
        match self.connection_receive.check(None, connection_end, new_bytes) {
            Ok(_) => {},
            Err(error) => {
                return Err(error);
            },
        }
        let status = match self.streams.insert_data(&data) {
            Ok(status) => status,
            Err(error) => {
                return Err(error);
            },
        };
        let ghost inserted = self.streams@;
        match self.connection_receive.account(None, new_bytes) {
            Ok(_) => {},
            Err(error) => {
                return Err(error);
            },
        }
        if status.buffered > self.config.max_receive_buffer {
            proof {
                if first.streams[id].state == StreamState::Open {
                    assert(self@.streams =~= first.streams.insert(id, inserted[id]));
                }
            }
            return Err(CoreError::ReceiveBufferFull);
        }
        if status.readable {
            proof {
                lemma_output_pushed(self.output@, CoreOutput::StreamReadable(data.stream_id));
            }
            self.output.push_back(CoreOutput::StreamReadable(data.stream_id));
        }
        if status.finished && !status.readable {
            self.streams.finish(data.stream_id);
            proof {
                lemma_output_pushed(self.output@, CoreOutput::StreamFinished(data.stream_id));
                assert(self@.streams =~= first.streams.insert(id, self@.streams[id]));
            }
            self.output.push_back(CoreOutput::StreamFinished(data.stream_id));
        }
        assert(self@.output.subrange(0, first.output.len() as int) =~= first.output);
        Ok(())
    }

    fn process_reset_stream(&mut self, packet_type: PacketType, reset: ResetStream) -> (result:
        Result<(), CoreError>)
        requires
            old(self).well_formed(),
        ensures
            final(self).well_formed(),
            final(self)@.now == old(self)@.now,
            reset_done(old(self)@, packet_type, reset, final(self)@, result),
            continues(old(self)@, final(self)@),
    {
        let ghost first = self@;
        proof {
            assert(first.output.subrange(0, first.output.len() as int) =~= first.output);
        }
        if packet_type != PacketType::Data || self.state != ConnectionState::Established {
            return Err(CoreError::InvalidPacketType);
        }
        match self.streams.reset(reset.stream_id, reset.error_code) {
            Ok(_) => {},
            Err(error) => {
                return Err(error);
            },
        }
        let output = CoreOutput::StreamReset {
            stream_id: reset.stream_id,
            error_code: reset.error_code,
        };
        proof {
            lemma_output_pushed(self.output@, output);
        }
        self.output.push_back(output);
        assert(self@.output.subrange(0, first.output.len() as int) =~= first.output);
        Ok(())
    }

    fn process_max_stream_data(
        &mut self,
        packet_type: PacketType,
        update: MaxStreamData,
    ) -> (result:
        Result<(), CoreError>)
        requires
            old(self).well_formed(),
        ensures
            final(self).well_formed(),
            final(self)@.now == old(self)@.now,
            max_stream_data_done(old(self)@, packet_type, update, final(self)@, result),
            continues(old(self)@, final(self)@),
    {
        proof {
            assert(self@.output.subrange(0, self@.output.len() as int) =~= self@.output);
        }
        if packet_type != PacketType::Data || self.state != ConnectionState::Established {
            return Err(CoreError::InvalidPacketType);
        }
        self.streams.update_send_window(update.stream_id, update.max_offset)
    }

    fn process_max_data(&mut self, packet_type: PacketType, update: MaxData) -> (result: Result<
        (),
        CoreError,
    >)
        requires
            old(self).well_formed(),
        ensures
            final(self).well_formed(),
            final(self)@.now == old(self)@.now,
            max_data_done(old(self)@, packet_type, update, final(self)@, result),
            continues(old(self)@, final(self)@),
    {
        proof {
            assert(self@.output.subrange(0, self@.output.len() as int) =~= self@.output);
        }
        if packet_type != PacketType::Data || self.state != ConnectionState::Established {
            return Err(CoreError::InvalidPacketType);
        }
        self.connection_send.update(update.max_offset);
        Ok(())
    }

    fn process_ping(&mut self, packet_type: PacketType, ping: Ping) -> (result: Result<
        (),
        CoreError,
    >)
        requires
            old(self).well_formed(),
        ensures
            final(self).well_formed(),
            final(self)@.now == old(self)@.now,
            ping_done(old(self)@, packet_type, ping, final(self)@, result),
            continues(old(self)@, final(self)@),
    {
        proof {
            assert(self@.output.subrange(0, self@.output.len() as int) =~= self@.output);
        }
        if packet_type != PacketType::Data || self.state != ConnectionState::Established {
            return Err(CoreError::InvalidPacketType);
        }
        self.transport.queue(Frame::Pong(Pong { nonce: ping.nonce }));
        Ok(())
    }

    fn process_connection_close(&mut self, packet_type: PacketType, close: ConnectionClose)
        -> (result: Result<(), CoreError>)
        requires
            old(self).well_formed(),
        ensures
            final(self).well_formed(),
            final(self)@.now == old(self)@.now,
            close_received(old(self)@, packet_type, close.error_code, final(self)@, result),
            continues(old(self)@, final(self)@),
    {
        let ghost first = self@;
        proof {
            assert(first.output.subrange(0, first.output.len() as int) =~= first.output);
        }
        if packet_type != PacketType::Close {
            return Err(CoreError::InvalidPacketType);
        }
        self.close_error = Some(close.error_code);
        self.timers.cancel_all();
        self.set_state(ConnectionState::Closed);
        let output = CoreOutput::ConnectionClosed { error_code: close.error_code };
        proof {
            lemma_output_pushed(self.output@, output);
        }
        self.output.push_back(output);
        assert(self@.output.subrange(0, first.output.len() as int) =~= first.output);
        Ok(())
    }

    /// Does what a timer is for.
    pub fn process_timer<W: Wire>(&mut self, event: TimerEvent, wire: &W) -> (result: Result<
        (),
        CoreError,
    >)
        requires
            old(self).well_formed(),
        ensures
            final(self).well_formed(),
            final(self)@.now == old(self)@.now,
            timer_done(wire, old(self)@, event, final(self)@, result),
            continues(old(self)@, final(self)@),
    {
        let ghost first = self@;
        proof {
            assert(first.output.subrange(0, first.output.len() as int) =~= first.output);
        }
        let result = match event {
            TimerEvent::HandshakeTimeout => {
                if self.state == ConnectionState::Handshaking {
                    let timeout = match self.handshake.on_timeout(
                        self.state,
                        &self.config,
                        &mut self.transport,
                        &mut self.timers,
                    ) {
                        Ok(timeout) => timeout,
                        Err(error) => {
                            return Err(error);
                        },
                    };
                    if timeout == HandshakeTimeout::Close {
                        assert(self@ =~= first);
                        return self.close(1, "handshake timeout".to_owned(), wire);
                    }
                }
                Ok(())
            },
            TimerEvent::Retransmit { packet_number, generation } => {
                match self.transport.process_retransmit(
                    packet_number,
                    generation,
                    &self.config,
                    &mut self.streams,
                ) {
                    Ok(_) => Ok(()),
                    Err(error) => {
                        match error {
                            CoreError::RetransmissionLimit => {
                                self.close_error = Some(3);
                                self.set_state(ConnectionState::Closing);
                                assert(self@.output.subrange(0, first.output.len() as int)
                                    =~= first.output);
                            },
                            _ => {},
                        }
                        Err(error)
                    },
                }
            },
            TimerEvent::AckDelay => {
                self.transport.on_ack_timer();
                Ok(())
            },
            TimerEvent::Keepalive => {
                if self.state == ConnectionState::Established {
                    self.transport.queue_keepalive();
                }
                match self.config.keepalive_interval {
                    Some(interval) => self.timers.schedule_keepalive(interval),
                    None => Ok(()),
                }
            },
            TimerEvent::IdleTimeout => {
                if self.state != ConnectionState::Closed && self.state != ConnectionState::Closing {
                    return self.close(2, "idle timeout".to_owned(), wire);
                }
                Ok(())
            },
            TimerEvent::CloseTimeout => {
                self.timers.cancel_all();
                self.set_state(ConnectionState::Closed);
                let error_code: u32 = match self.close_error {
                    Some(code) => code,
                    None => 0,
                };
                let output = CoreOutput::ConnectionClosed { error_code };
                proof {
                    lemma_output_pushed(self.output@, output);
                }
                self.output.push_back(output);
                assert(self@.output.subrange(0, first.output.len() as int) =~= first.output);
                Ok(())
            },
        };
        proof {
            if self@.output == first.output {
                lemma_continues_same(first, self@);
            }
        }
        result
    }

    fn effective_max_streams(&self) -> (count: u32)
        ensures
            count == allowed_streams(self@),
    {
        self.handshake.effective_max_streams(&self.config)
    }

    fn ensure_established(&self, operation: &'static str) -> (result: Result<(), CoreError>)
        ensures
            result is Ok <==> self@.state == ConnectionState::Established,
            result matches Err(error) ==> error == (CoreError::InvalidState { operation }),
    {
        if self.state == ConnectionState::Established {
            Ok(())
        } else {
            Err(CoreError::InvalidState { operation })
        }
    }

    /// Largest number of bytes of a stream in one packet.
    fn max_stream_data_chunk(&self) -> (length: usize)
        ensures
            length == greater(self@.config.max_datagram_size - 100, 1),
    {
        let length: usize = self.config.max_datagram_size.saturating_sub(100);
        if length < 1 {
            1
        } else {
            length
        }
    }

    /// Sends what can be sent.
    fn flush<W: Wire>(&mut self, wire: &W) -> (result: Result<(), CoreError>)
        requires
            old(self).well_formed(),
        ensures
            final(self).well_formed(),
            sent_on(wire, old(self)@, final(self)@, result),
    {
        let identity = FlushIdentity {
            connection_id: self.id,
            state: self.state,
            now: self.now,
            encrypt_data: self.crypto_active && (self.state == ConnectionState::Established
                || self.state == ConnectionState::Closing),
        };
        self.transport.flush(
            wire,
            &identity,
            &self.config,
            &mut self.timers,
            &mut self.streams,
            &mut self.connection_send,
            &mut self.output,
        )
    }

    /// Goes to another state and announces it.
    fn set_state(&mut self, state: ConnectionState)
        requires
            old(self).well_formed(),
        ensures
            final(self).well_formed(),
            final(self)@ == state_set(old(self)@, state),
    {
        if self.state != state {
            self.state = state;
            proof {
                lemma_output_pushed(self.output@, CoreOutput::ConnectionStateChanged(state));
            }
            self.output.push_back(CoreOutput::ConnectionStateChanged(state));
        }
    }

    /// Has packets encrypted from now on.
    fn activate_crypto(&mut self) -> (result: Result<(), CoreError>)
        requires
            old(self).well_formed(),
        ensures
            final(self).well_formed(),
            result is Ok <==> old(self)@.crypto_active || old(self)@.handshake.has_keys,
            result is Ok ==> final(self)@ == (ConnectionView { crypto_active: true, ..old(self)@ }),
            result matches Err(error) ==> final(self)@ == old(self)@ && error == (
            CoreError::InvalidState { operation: "establish connection without session keys" }),
    {
        if self.crypto_active {
            return Ok(());
        }
        if !self.handshake.has_keys() {
            return Err(
                CoreError::InvalidState {
                    operation: "establish connection without session keys",
                },
            );
        }
        self.crypto_active = true;
        Ok(())
    }
}

} // verus!
