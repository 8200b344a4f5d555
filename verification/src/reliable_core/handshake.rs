//! How a connection is established.

use vstd::prelude::*;

use crate::bytes::{bytes_equal, copy_bytes};
use crate::duration::Duration;
use crate::random::random_bytes;
use crate::reliable_core::config::{ConnectionConfig, ConnectionRole};
use crate::reliable_core::congestion::lesser;
use crate::reliable_core::error::CoreError;
use crate::reliable_core::event::ConnectionState;
use crate::reliable_core::send::QueuedView;
use crate::reliable_core::timer::TimerEvent;
use crate::reliable_core::timers::{timer_refused, with_timer, without, TimerState, TimersView};
use crate::reliable_core::transport::{TransportState, TransportView};
use crate::wire::{
    ClientHello, ClientHelloView, ConnectionId, CryptoError, Frame, FrameView, HandshakeAck,
    KeyExchange, KeyRequest, PacketType, Retry, ServerHello, ServerHelloView,
};

verus! {

/// The handshake, as contracts see it.
#[verifier::ext_equal]
pub struct HandshakeView {
    pub connection_id: ConnectionId,
    pub public_key: Seq<u8>,
    pub local_nonce: Seq<u8>,
    /// The nonce of this side once it has sent its hello as a client.
    pub client_nonce: Option<Seq<u8>>,
    /// The nonce of the client once its hello has come.
    pub peer_client_nonce: Option<Seq<u8>>,
    pub peer_cookie: Seq<u8>,
    /// The frame that is repeated until it is answered.
    pub frame: Option<FrameView>,
    pub transcript_hash: Option<Seq<u8>>,
    pub has_keys: bool,
    pub retries: u32,
    pub peer_max_streams: u32,
    pub peer_initial_stream_window: u64,
}

/// The handshake of a connection.
#[derive(Debug)]
pub struct HandshakeState {
    connection_id: ConnectionId,
    public_key: [u8; 32],
    local_nonce: [u8; 16],
    client_nonce: Option<[u8; 16]>,
    peer_client_nonce: Option<[u8; 16]>,
    peer_cookie: Vec<u8>,
    frame: Option<Frame>,
    transcript_hash: Option<[u8; 32]>,
    has_keys: bool,
    retries: u32,
    peer_max_streams: u32,
    peer_initial_stream_window: u64,
}

/// What to do when the handshake takes too long.
#[derive(Debug, Clone, Copy, PartialEq, Eq, Structural)]
pub enum HandshakeTimeout {
    Retry,
    Close,
}

spec fn nonce_view(nonce: Option<[u8; 16]>) -> Option<Seq<u8>> {
    match nonce {
        Some(bytes) => Some(bytes@),
        None => None,
    }
}

impl View for HandshakeState {
    type V = HandshakeView;

    closed spec fn view(&self) -> HandshakeView {
        HandshakeView {
            connection_id: self.connection_id,
            public_key: self.public_key@,
            local_nonce: self.local_nonce@,
            client_nonce: nonce_view(self.client_nonce),
            peer_client_nonce: nonce_view(self.peer_client_nonce),
            peer_cookie: self.peer_cookie@,
            frame: match self.frame {
                Some(frame) => Some(frame@),
                None => None,
            },
            transcript_hash: match self.transcript_hash {
                Some(hash) => Some(hash@),
                None => None,
            },
            has_keys: self.has_keys,
            retries: self.retries,
            peer_max_streams: self.peer_max_streams,
            peer_initial_stream_window: self.peer_initial_stream_window,
        }
    }
}

/// The hello of this side as a client.
pub open spec fn client_hello(view: HandshakeView, config: ConnectionConfig) -> FrameView {
    FrameView::ClientHello(
        ClientHelloView {
            client_nonce: view.local_nonce,
            client_public_key: view.public_key,
            max_datagram_size: config.max_datagram_size as u16,
            max_streams: config.max_streams,
            initial_connection_window: config.initial_connection_window,
            initial_stream_window: config.initial_stream_window,
            cookie: config.handshake_cookie@,
        },
    )
}

/// The hello of this side as a server.
pub open spec fn server_hello(
    view: HandshakeView,
    config: ConnectionConfig,
    finished: Seq<u8>,
    cookie: Seq<u8>,
) -> FrameView {
    FrameView::ServerHello(
        ServerHelloView {
            server_nonce: view.local_nonce,
            server_public_key: view.public_key,
            server_finished: finished,
            max_datagram_size: config.max_datagram_size as u16,
            max_streams: lesser(config.max_streams as int, view.peer_max_streams as int) as u32,
            initial_connection_window: config.initial_connection_window,
            initial_stream_window: config.initial_stream_window,
            cookie,
        },
    )
}

/// Why the hello of a client is refused before its keys are looked at.
pub open spec fn client_hello_refused(
    view: HandshakeView,
    role: ConnectionRole,
    packet_type: PacketType,
    nonce: Seq<u8>,
) -> Option<CoreError> {
    if role != ConnectionRole::Server || packet_type != PacketType::Initial {
        Some(CoreError::InvalidPacketType)
    } else if view.peer_client_nonce matches Some(previous) && previous != nonce {
        Some(CoreError::InvalidState { operation: "client nonce changed during handshake" })
    } else {
        None
    }
}

/// The settings once a hello with this datagram size has come.
pub open spec fn narrowed(config: ConnectionConfig, max_datagram_size: u16) -> ConnectionConfig {
    ConnectionConfig {
        max_datagram_size: lesser(
            config.max_datagram_size as int,
            max_datagram_size as int,
        ) as usize,
        ..config
    }
}

impl HandshakeState {
    /// A handshake with a fresh nonce. `public_key` is the key of this side.
    pub fn new(connection_id: ConnectionId, public_key: [u8; 32], config: &ConnectionConfig)
        -> (result: Result<Self, CoreError>)
        ensures
            match result {
                Ok(state) => state@ == (HandshakeView {
                    connection_id,
                    public_key: public_key@,
                    local_nonce: state@.local_nonce,
                    client_nonce: None,
                    peer_client_nonce: None,
                    peer_cookie: Seq::empty(),
                    frame: None,
                    transcript_hash: None,
                    has_keys: false,
                    retries: 0,
                    peer_max_streams: config.max_streams,
                    peer_initial_stream_window: config.initial_stream_window,
                }),
                Err(error) => error == CoreError::RandomnessUnavailable,
            },
    {
        match random_bytes::<16>() {
            Ok(nonce) => Ok(Self::with_nonce(connection_id, public_key, nonce, config)),
            Err(_) => Err(CoreError::RandomnessUnavailable),
        }
    }

    /// A handshake with a given nonce.
    pub fn with_nonce(
        connection_id: ConnectionId,
        public_key: [u8; 32],
        local_nonce: [u8; 16],
        config: &ConnectionConfig,
    ) -> (state: Self)
        ensures
            state@ == (HandshakeView {
                connection_id,
                public_key: public_key@,
                local_nonce: local_nonce@,
                client_nonce: None,
                peer_client_nonce: None,
                peer_cookie: Seq::empty(),
                frame: None,
                transcript_hash: None,
                has_keys: false,
                retries: 0,
                peer_max_streams: config.max_streams,
                peer_initial_stream_window: config.initial_stream_window,
            }),
    {
        let state = HandshakeState {
            connection_id,
            public_key,
            local_nonce,
            client_nonce: None,
            peer_client_nonce: None,
            peer_cookie: Vec::new(),
            frame: None,
            transcript_hash: None,
            has_keys: false,
            retries: 0,
            peer_max_streams: config.max_streams,
            peer_initial_stream_window: config.initial_stream_window,
        };
        assert(state@.peer_cookie =~= Seq::empty());
        state
    }

    /// How far the other side lets this one send on a new stream.
    pub fn peer_initial_stream_window(&self) -> (window: u64)
        ensures
            window == self@.peer_initial_stream_window,
    {
        self.peer_initial_stream_window
    }

    /// The number of streams that both sides allow.
    pub fn effective_max_streams(&self, config: &ConnectionConfig) -> (count: u32)
        ensures
            count == lesser(config.max_streams as int, self@.peer_max_streams as int),
    {
        if config.max_streams < self.peer_max_streams {
            config.max_streams
        } else {
            self.peer_max_streams
        }
    }

    /// Whether the keys of the connection are known.
    pub fn has_keys(&self) -> (known: bool)
        ensures
            known == self@.has_keys,
    {
        self.has_keys
    }

    /// The hello of this side as a client.
    fn hello(&self, config: &ConnectionConfig) -> (frame: Frame)
        requires
            config.max_datagram_size <= u16::MAX,
        ensures
            frame@ == client_hello(self@, *config),
    {
        Frame::ClientHello(
            ClientHello {
                client_nonce: self.local_nonce,
                client_public_key: self.public_key,
                max_datagram_size: config.max_datagram_size as u16,
                max_streams: config.max_streams,
                initial_connection_window: config.initial_connection_window,
                initial_stream_window: config.initial_stream_window,
                cookie: copy_bytes(&config.handshake_cookie),
            },
        )
    }

    /// Queues the hello of a client and sets the timer that repeats it.
    pub fn start_client(
        &mut self,
        config: &ConnectionConfig,
        transport: &mut TransportState,
        timers: &mut TimerState,
    ) -> (result: Result<(), CoreError>)
        requires
            config.max_datagram_size <= u16::MAX,
            old(transport).well_formed(),
            old(timers).well_formed(),
        ensures
            final(transport).well_formed(),
            final(timers).well_formed(),
            final(self)@ == (HandshakeView {
                client_nonce: Some(old(self)@.local_nonce),
                frame: Some(client_hello(old(self)@, *config)),
                ..old(self)@
            }),
            final(transport)@ == (TransportView {
                pending: old(transport)@.pending.push(
                    QueuedView {
                        frame: client_hello(old(self)@, *config),
                        retransmit_count: 0,
                    },
                ),
                ..old(transport)@
            }),
            handshake_timer_set(old(timers)@, final(timers)@, config.handshake_timeout, result),
    {
        let frame = self.hello(config);
        self.client_nonce = Some(self.local_nonce);
        transport.queue(frame.copy());
        self.frame = Some(frame);
        timers.schedule_handshake(config.handshake_timeout)
    }

    /// Keeps the frame that is repeated until it is answered.
    pub fn set_frame(&mut self, frame: Frame)
        ensures
            final(self)@ == (HandshakeView { frame: Some(frame@), ..old(self)@ }),
    {
        self.frame = Some(frame);
    }

    /// Takes the hello of a client up to its keys: gives the step of the key
    /// exchange to take, and how much the client lets this side send.
    pub fn begin_client_hello(
        &mut self,
        role: ConnectionRole,
        packet_type: PacketType,
        hello: &ClientHello,
        state: ConnectionState,
        config: &mut ConnectionConfig,
    ) -> (result: Result<(KeyRequest, Option<u64>), CoreError>)
        ensures
            ({
                let refused = client_hello_refused(
                    old(self)@,
                    role,
                    packet_type,
                    hello@.client_nonce,
                );
                match result {
                    Err(error) => {
                        &&& refused == Some(error)
                        &&& final(self)@ == old(self)@
                        &&& *final(config) == *old(config)
                    },
                    Ok((request, max_offset)) => {
                        &&& refused is None
                        &&& final(self)@ == (HandshakeView {
                            peer_client_nonce: Some(hello@.client_nonce),
                            peer_cookie: hello@.cookie,
                            peer_max_streams: lesser(
                                old(self)@.peer_max_streams as int,
                                hello.max_streams as int,
                            ) as u32,
                            peer_initial_stream_window: hello.initial_stream_window,
                            ..old(self)@
                        })
                        &&& *final(config) == (if state != ConnectionState::Established {
                            narrowed(*old(config), hello.max_datagram_size)
                        } else {
                            *old(config)
                        })
                        &&& max_offset == (if state != ConnectionState::Established {
                            Some(hello.initial_connection_window)
                        } else {
                            None
                        })
                        &&& request matches KeyRequest::AnswerClient {
                            connection_id,
                            client_nonce,
                            server_nonce,
                            client_public_key,
                        } && connection_id == old(self)@.connection_id && client_nonce@
                            == hello@.client_nonce && server_nonce@ == old(self)@.local_nonce
                            && client_public_key@ == hello@.client_public_key
                    },
                }
            }),
    {
        if role != ConnectionRole::Server || packet_type != PacketType::Initial {
            return Err(CoreError::InvalidPacketType);
        }
        match &self.peer_client_nonce {
            Some(previous) => {
                if !bytes_equal(previous, &hello.client_nonce) {
                    return Err(
                        CoreError::InvalidState {
                            operation: "client nonce changed during handshake",
                        },
                    );
                }
            },
            None => {},
        }
        self.peer_client_nonce = Some(hello.client_nonce);
        self.peer_cookie = copy_bytes(&hello.cookie);
        if hello.max_streams < self.peer_max_streams {
            self.peer_max_streams = hello.max_streams;
        }
        self.peer_initial_stream_window = hello.initial_stream_window;
        let mut max_offset: Option<u64> = None;
        if state != ConnectionState::Established {
            max_offset = Some(hello.initial_connection_window);
            if (hello.max_datagram_size as usize) < config.max_datagram_size {
                config.max_datagram_size = hello.max_datagram_size as usize;
            }
        }
        let request = KeyRequest::AnswerClient {
            connection_id: self.connection_id,
            client_nonce: hello.client_nonce,
            server_nonce: self.local_nonce,
            client_public_key: hello.client_public_key,
        };
        Ok((request, max_offset))
    }

    /// Answers the hello of a client, given what the key exchange gave.
    pub fn finish_client_hello(
        &mut self,
        hello: ClientHello,
        state: ConnectionState,
        config: &ConnectionConfig,
        exchange: Result<KeyExchange, CryptoError>,
    ) -> (result: Result<(Frame, Option<ConnectionState>), CoreError>)
        requires
            config.max_datagram_size <= u16::MAX,
        ensures
            match exchange {
                Err(problem) => {
                    &&& result == Err::<(Frame, Option<ConnectionState>), CoreError>(
                        CoreError::Crypto(problem),
                    )
                    &&& final(self)@ == old(self)@
                },
                Ok(keys) => {
                    &&& result matches Ok((frame, next_state)) && frame@ == server_hello(
                        old(self)@,
                        *config,
                        keys.finished@,
                        hello@.cookie,
                    ) && next_state == (if state == ConnectionState::Idle {
                        Some(ConnectionState::Handshaking)
                    } else {
                        None
                    })
                    &&& final(self)@ == (HandshakeView {
                        transcript_hash: Some(keys.transcript_hash@),
                        has_keys: true,
                        ..old(self)@
                    })
                },
            },
    {
        let keys = match exchange {
            Ok(keys) => keys,
            Err(problem) => {
                return Err(CoreError::Crypto(problem));
            },
        };
        self.transcript_hash = Some(keys.transcript_hash);
        self.has_keys = true;
        let frame = Frame::ServerHello(
            ServerHello {
                server_nonce: self.local_nonce,
                server_public_key: self.public_key,
                server_finished: keys.finished,
                max_datagram_size: config.max_datagram_size as u16,
                max_streams: self.effective_max_streams(config),
                initial_connection_window: config.initial_connection_window,
                initial_stream_window: config.initial_stream_window,
                cookie: hello.cookie,
            },
        );
        if state == ConnectionState::Idle {
            Ok((frame, Some(ConnectionState::Handshaking)))
        } else {
            Ok((frame, None))
        }
    }

    /// Takes the hello of a server up to its keys: gives the step of the key
    /// exchange to take.
    pub fn begin_server_hello(
        &mut self,
        role: ConnectionRole,
        packet_type: PacketType,
        hello: &ServerHello,
        state: ConnectionState,
        config: &mut ConnectionConfig,
    ) -> (result: Result<KeyRequest, CoreError>)
        ensures
            if role != ConnectionRole::Client || packet_type != PacketType::Handshake || state
                != ConnectionState::Handshaking {
                &&& result == Err::<KeyRequest, CoreError>(CoreError::InvalidPacketType)
                &&& final(self)@ == old(self)@
                &&& *final(config) == *old(config)
            } else {
                &&& final(self)@ == (HandshakeView {
                    peer_cookie: hello@.cookie,
                    peer_max_streams: lesser(
                        old(self)@.peer_max_streams as int,
                        hello.max_streams as int,
                    ) as u32,
                    peer_initial_stream_window: hello.initial_stream_window,
                    ..old(self)@
                })
                &&& *final(config) == narrowed(*old(config), hello.max_datagram_size)
                &&& match old(self)@.client_nonce {
                    None => result == Err::<KeyRequest, CoreError>(
                        (CoreError::InvalidState {
                            operation: "receive server hello before client hello",
                        }),
                    ),
                    Some(nonce) => {
                        &&& result matches Ok(request) && request matches KeyRequest::AnswerServer {
                            connection_id,
                            client_nonce,
                            server_nonce,
                            server_public_key,
                            server_finished,
                        } && connection_id == old(self)@.connection_id && client_nonce@ == nonce
                            && server_nonce@ == hello@.server_nonce && server_public_key@
                            == hello@.server_public_key && server_finished@
                            == hello@.server_finished
                    },
                }
            },
    {
        if role != ConnectionRole::Client || packet_type != PacketType::Handshake || state
            != ConnectionState::Handshaking {
            return Err(CoreError::InvalidPacketType);
        }
        self.peer_cookie = copy_bytes(&hello.cookie);
        if hello.max_streams < self.peer_max_streams {
            self.peer_max_streams = hello.max_streams;
        }
        self.peer_initial_stream_window = hello.initial_stream_window;
        if (hello.max_datagram_size as usize) < config.max_datagram_size {
            config.max_datagram_size = hello.max_datagram_size as usize;
        }
        match self.client_nonce {
            None => Err(
                CoreError::InvalidState { operation: "receive server hello before client hello" },
            ),
            Some(client_nonce) => Ok(
                KeyRequest::AnswerServer {
                    connection_id: self.connection_id,
                    client_nonce,
                    server_nonce: hello.server_nonce,
                    server_public_key: hello.server_public_key,
                    server_finished: hello.server_finished,
                },
            ),
        }
    }

    /// Answers the hello of a server, given what the key exchange gave.
    pub fn finish_server_hello(
        &mut self,
        hello: ServerHello,
        exchange: Result<KeyExchange, CryptoError>,
    ) -> (result: Result<(Frame, u64), CoreError>)
        ensures
            match exchange {
                Err(problem) => {
                    &&& result == Err::<(Frame, u64), CoreError>(CoreError::Crypto(problem))
                    &&& final(self)@ == old(self)@
                },
                Ok(keys) => {
                    &&& result matches Ok((frame, max_offset)) && frame@ == (
                    FrameView::HandshakeAck {
                        cookie: hello@.cookie,
                        client_finished: keys.finished@,
                    }) && max_offset == hello.initial_connection_window
                    &&& final(self)@ == (HandshakeView {
                        transcript_hash: Some(keys.transcript_hash@),
                        has_keys: true,
                        ..old(self)@
                    })
                },
            },
    {
        let keys = match exchange {
            Ok(keys) => keys,
            Err(problem) => {
                return Err(CoreError::Crypto(problem));
            },
        };
        self.transcript_hash = Some(keys.transcript_hash);
        self.has_keys = true;
        let frame = Frame::HandshakeAck(
            HandshakeAck { cookie: hello.cookie, client_finished: keys.finished },
        );
        Ok((frame, hello.initial_connection_window))
    }

    /// Begins again with the cookie of a retry.
    pub fn receive_retry(
        &mut self,
        role: ConnectionRole,
        packet_type: PacketType,
        retry: Retry,
        state: ConnectionState,
        config: &mut ConnectionConfig,
    ) -> (result: Result<Frame, CoreError>)
        requires
            old(config).max_datagram_size <= u16::MAX,
        ensures
            if role != ConnectionRole::Client || packet_type != PacketType::Retry || state
                != ConnectionState::Handshaking || retry.cookie@.len() == 0 || retry.cookie@.len()
                > old(config).limits.max_cookie_len {
                &&& result == Err::<Frame, CoreError>(CoreError::InvalidPacketType)
                &&& final(self)@ == old(self)@
                &&& *final(config) == *old(config)
            } else if old(self)@.client_nonce is None {
                &&& result == Err::<Frame, CoreError>(
                    (CoreError::InvalidState { operation: "receive retry before client hello" }),
                )
                &&& final(self)@ == old(self)@
                &&& *final(config) == *old(config)
            } else {
                &&& *final(config) == (ConnectionConfig {
                    handshake_cookie: retry.cookie,
                    ..*old(config)
                })
                &&& result matches Ok(frame) && frame@ == client_hello(
                    old(self)@,
                    *final(config),
                )
                &&& final(self)@ == (HandshakeView {
                    frame: Some(client_hello(old(self)@, *final(config))),
                    ..old(self)@
                })
            },
    {
        if role != ConnectionRole::Client || packet_type != PacketType::Retry || state
            != ConnectionState::Handshaking || retry.cookie.len() == 0 || retry.cookie.len()
            > config.limits.max_cookie_len {
            return Err(CoreError::InvalidPacketType);
        }
        if self.client_nonce.is_none() {
            return Err(CoreError::InvalidState { operation: "receive retry before client hello" });
        }
        config.handshake_cookie = retry.cookie;
        let frame = self.hello(config);
        self.frame = Some(frame.copy());
        Ok(frame)
    }

    /// Takes the last message of the handshake up to its proof: gives the digest
    /// that the proof is checked against.
    pub fn begin_handshake_ack(
        &self,
        role: ConnectionRole,
        packet_type: PacketType,
        ack: &HandshakeAck,
        state: ConnectionState,
    ) -> (result: Result<[u8; 32], CoreError>)
        ensures
            ({
                let refused = handshake_ack_refused(
                    self@,
                    role,
                    packet_type,
                    ack.cookie@,
                    state,
                );
                match result {
                    Err(error) => refused == Some(error),
                    Ok(hash) => refused is None && self@.transcript_hash == Some(hash@),
                }
            }),
    {
        if role != ConnectionRole::Server || packet_type != PacketType::Handshake || state
            != ConnectionState::Handshaking || !bytes_equal(&ack.cookie, &self.peer_cookie) {
            return Err(CoreError::InvalidPacketType);
        }
        match self.transcript_hash {
            None => Err(
                CoreError::InvalidState {
                    operation: "receive handshake acknowledgement before key exchange",
                },
            ),
            Some(hash) => {
                if self.has_keys {
                    Ok(hash)
                } else {
                    Err(
                        CoreError::InvalidState {
                            operation: "receive handshake acknowledgement without session keys",
                        },
                    )
                }
            },
        }
    }

    /// Repeats the frame of the handshake, or gives up.
    pub fn on_timeout(
        &mut self,
        state: ConnectionState,
        config: &ConnectionConfig,
        transport: &mut TransportState,
        timers: &mut TimerState,
    ) -> (result: Result<HandshakeTimeout, CoreError>)
        requires
            old(transport).well_formed(),
            old(timers).well_formed(),
        ensures
            final(transport).well_formed(),
            final(timers).well_formed(),
            ({
                let untouched = {
                    &&& final(self)@ == old(self)@
                    &&& final(transport)@ == old(transport)@
                    &&& final(timers)@ == old(timers)@
                };
                if state != ConnectionState::Handshaking {
                    untouched && result == Ok::<HandshakeTimeout, CoreError>(HandshakeTimeout::Retry)
                } else if old(self)@.frame is None || old(self)@.retries
                    >= config.max_retransmissions {
                    untouched && result == Ok::<HandshakeTimeout, CoreError>(HandshakeTimeout::Close)
                } else {
                    &&& final(self)@ == (HandshakeView {
                        retries: lesser(old(self)@.retries + 1, u32::MAX as int) as u32,
                        ..old(self)@
                    })
                    &&& final(transport)@ == (TransportView {
                        pending: seq![
                            QueuedView { frame: old(self)@.frame->0, retransmit_count: 0 },
                        ] + old(transport)@.pending,
                        ..old(transport)@
                    })
                    &&& match result {
                        Ok(outcome) => outcome == HandshakeTimeout::Retry && handshake_timer_set(
                            old(timers)@,
                            final(timers)@,
                            config.handshake_timeout,
                            Ok(()),
                        ),
                        Err(error) => handshake_timer_set(
                            old(timers)@,
                            final(timers)@,
                            config.handshake_timeout,
                            Err(error),
                        ),
                    }
                }
            }),
    {
        if state != ConnectionState::Handshaking {
            return Ok(HandshakeTimeout::Retry);
        }
        let frame = match &self.frame {
            Some(frame) => frame.copy(),
            None => {
                return Ok(HandshakeTimeout::Close);
            },
        };
        if self.retries >= config.max_retransmissions {
            return Ok(HandshakeTimeout::Close);
        }
        self.retries = self.retries.saturating_add(1);
        transport.queue_front(frame);
        match timers.schedule_handshake(config.handshake_timeout) {
            Ok(_) => Ok(HandshakeTimeout::Retry),
            Err(error) => Err(error),
        }
    }
}

/// Why the last message of the handshake is refused before its proof is checked.
pub open spec fn handshake_ack_refused(
    view: HandshakeView,
    role: ConnectionRole,
    packet_type: PacketType,
    cookie: Seq<u8>,
    state: ConnectionState,
) -> Option<CoreError> {
    if role != ConnectionRole::Server || packet_type != PacketType::Handshake || state
        != ConnectionState::Handshaking || cookie != view.peer_cookie {
        Some(CoreError::InvalidPacketType)
    } else if view.transcript_hash is None {
        Some(
            CoreError::InvalidState {
                operation: "receive handshake acknowledgement before key exchange",
            },
        )
    } else if !view.has_keys {
        Some(
            CoreError::InvalidState {
                operation: "receive handshake acknowledgement without session keys",
            },
        )
    } else {
        None
    }
}

/// Setting the timer of the handshake: it is set, or refused and nothing changes.
pub open spec fn handshake_timer_set(
    before: TimersView,
    after: TimersView,
    delay: Duration,
    result: Result<(), CoreError>,
) -> bool {
    match result {
        Ok(_) => {
            &&& timer_refused(before, delay) is None
            &&& after.handshake matches Some(id) && !before.timers.contains_key(id.value())
                && after == (TimersView {
                handshake: after.handshake,
                ..with_timer(before, TimerEvent::HandshakeTimeout, delay, id)
            })
        },
        Err(error) => timer_refused(before, delay) == Some(error) && after == before,
    }
}

} // verus!
