//! What each step of a connection does, as relations between its views.

use vstd::prelude::*;

use crate::duration::{Duration, MAX_NANOS};
use crate::reliable_core::ack::{first_ranges, ranges_with};
use crate::reliable_core::config::{
    connection_config_error, connection_wheel_slots, ConnectionConfig, ConnectionConfigError,
    ConnectionRole,
};
use crate::reliable_core::congestion::{greater, lesser};
use crate::reliable_core::error::CoreError;
use crate::reliable_core::event::{ConnectionState, OutputView};
use crate::reliable_core::flow_control::{ReceiveFlowControl, SendFlowControl};
use crate::reliable_core::handshake::{
    client_hello, client_hello_refused, handshake_ack_refused, handshake_timer_set, narrowed,
    server_hello, HandshakeView,
};
use crate::reliable_core::receive::{delivered, insert_error, merged};
use crate::reliable_core::recovery::SentView;
use crate::reliable_core::rtt::measured;
use crate::reliable_core::send::{write_error, written, QueuedView, SendView};
use crate::reliable_core::stream::StreamState;
use crate::reliable_core::streams::{after_read, new_bytes_of, opened, StreamView};
use crate::reliable_core::timer::TimerEvent;
use crate::reliable_core::layout::{answers_client, answers_server, checks, some_elicits, verifies};
use crate::reliable_core::sending::{sending_done, SendingView};
use crate::reliable_core::timers::{
    items_of, slots_follow, timer_refused, with_timer, without, TimersView,
};
use crate::reliable_core::transport::{
    ack_run, at_rest, flushed, fresh_transport, loss_run, nothing_to_send, only_sending_changed,
    requeue_step, rising_numbers, sampled, sending_error, AckRun, FlushIdentity, TransportView,
};
use crate::time_wheel::config::config_error;
use crate::time_wheel::shape::{blank_slots, shape_for, slots_emptied};
use crate::time_wheel::wheel::{delay_ticks, in_firing_order, moved};
use crate::time_wheel::{Expired, TimerError};
use crate::wire::{
    ranges_hold, AckRange, AckView, ClientHelloView, ConnectionId, CryptoError, FrameView,
    KeyExchange, MaxData, MaxStreamData, Packet, PacketType, PacketView, Ping, Pong, ProtocolError,
    ResetStream, ServerHelloView, StreamDataView, StreamId, StreamOpen, Wire,
};

verus! {

/// A connection, as contracts see it.
#[verifier::ext_equal]
pub struct ConnectionView {
    pub role: ConnectionRole,
    pub id: ConnectionId,
    pub config: ConnectionConfig,
    pub state: ConnectionState,
    pub now: Duration,
    pub streams: Map<u64, StreamView>,
    pub next_stream: u64,
    pub transport: TransportView,
    pub handshake: HandshakeView,
    /// Whether packets are encrypted from now on.
    pub crypto_active: bool,
    pub timers: TimersView,
    pub output: Seq<OutputView>,
    pub send: SendFlowControl,
    pub receive: ReceiveFlowControl,
    pub close_error: Option<u32>,
}

/// Why a connection with these settings cannot start.
pub open spec fn start_refused(config: ConnectionConfig) -> Option<CoreError> {
    let tick = config.clock_granularity@;
    let wheel = config_error(tick, connection_wheel_slots());
    if connection_config_error(config) is Some {
        Some(CoreError::InvalidConfig(connection_config_error(config)->0))
    } else if wheel is Some {
        Some(CoreError::InvalidConfig(ConnectionConfigError::Wheel(wheel->0)))
    } else if delay_ticks(config.idle_timeout@, 0, tick) > u64::MAX {
        Some(CoreError::Timer(TimerError::DelayOverflow))
    } else if config.keepalive_interval matches Some(interval) && delay_ticks(interval@, 0, tick)
        > u64::MAX {
        Some(CoreError::Timer(TimerError::DelayOverflow))
    } else {
        None
    }
}

/// No timer is set, and no time has passed.
pub open spec fn fresh_timers(timers: TimersView, config: ConnectionConfig) -> bool {
    timers == (TimersView {
        timers: Map::empty(),
        slots: blank_slots(shape_for(connection_wheel_slots())),
        tick: 0,
        remainder: 0,
        tick_nanos: config.clock_granularity@,
        handshake: None,
        ack: None,
        keepalive: None,
        idle: None,
        close: None,
    })
}

/// The timers of a connection that has just started.
pub open spec fn first_timers(timers: TimersView, config: ConnectionConfig) -> bool {
    exists|unset: TimersView| #[trigger]
        fresh_timers(unset, config) && timers_set(unset, timers, config)
}

/// The idle timer is set, and that of the keepalive where there is one.
pub open spec fn timers_set(
    unset: TimersView,
    timers: TimersView,
    config: ConnectionConfig,
) -> bool {
    match timers.idle {
        None => false,
        Some(idle) => {
            let one = TimersView {
                idle: Some(idle),
                ..with_timer(unset, TimerEvent::IdleTimeout, config.idle_timeout, idle)
            };
            match config.keepalive_interval {
                None => timers == one,
                Some(interval) => timers.keepalive matches Some(keepalive)
                    && !one.timers.contains_key(keepalive.value()) && timers == (TimersView {
                    keepalive: Some(keepalive),
                    ..with_timer(one, TimerEvent::Keepalive, interval, keepalive)
                }),
            }
        },
    }
}

/// A handshake in which nothing has happened yet.
pub open spec fn fresh_handshake(
    handshake: HandshakeView,
    connection_id: ConnectionId,
    public_key: Seq<u8>,
    config: ConnectionConfig,
) -> bool {
    handshake == (HandshakeView {
        connection_id,
        public_key,
        local_nonce: handshake.local_nonce,
        client_nonce: None,
        peer_client_nonce: None,
        peer_cookie: Seq::empty(),
        frame: None,
        transcript_hash: None,
        has_keys: false,
        retries: 0,
        peer_max_streams: config.max_streams,
        peer_initial_stream_window: config.initial_stream_window,
    })
}

/// A connection that has just started.
pub open spec fn started(
    view: ConnectionView,
    role: ConnectionRole,
    id: ConnectionId,
    config: ConnectionConfig,
    handshake: HandshakeView,
) -> bool {
    let window = config.initial_connection_window;
    &&& view == (ConnectionView {
        role,
        id,
        config,
        state: if role == ConnectionRole::Client {
            ConnectionState::Handshaking
        } else {
            ConnectionState::Idle
        },
        now: view.now,
        streams: Map::empty(),
        next_stream: role.parity(),
        transport: view.transport,
        handshake,
        crypto_active: false,
        timers: view.timers,
        output: Seq::empty(),
        send: SendFlowControl { connection_max_offset: window, connection_sent_offset: 0 },
        receive: ReceiveFlowControl {
            max_offset: window,
            unique_received: 0,
            consumed: 0,
            window_size: window,
            advertised_offset: window,
        },
        close_error: None,
    })
    &&& view.now@ == 0
    &&& fresh_transport(view.transport, config)
    &&& first_timers(view.timers, config)
}

/// The hello of a client is queued, and its timer set.
pub open spec fn client_greeted(
    before: ConnectionView,
    after: ConnectionView,
    result: Result<(), CoreError>,
) -> bool {
    let frame = client_hello(before.handshake, before.config);
    &&& handshake_timer_set(
        before.timers,
        after.timers,
        before.config.handshake_timeout,
        result,
    )
    &&& after == (ConnectionView {
        handshake: HandshakeView {
            client_nonce: Some(before.handshake.local_nonce),
            frame: Some(frame),
            ..before.handshake
        },
        timers: after.timers,
        ..queued(before, frame)
    })
}

/// Sending may end with this error.
pub open spec fn sending_fails<W: Wire>(
    wire: &W,
    before: ConnectionView,
    error: CoreError,
) -> bool {
    exists|after: ConnectionView, result: Result<(), CoreError>| #[trigger]
        sent_on(wire, before, after, result) && result == Err::<(), CoreError>(error)
}

/// What starting a client gives.
pub open spec fn client_started<W: Wire>(
    wire: &W,
    id: ConnectionId,
    config: ConnectionConfig,
    handshake: HandshakeView,
    result: Result<ConnectionView, CoreError>,
) -> bool {
    match start_refused(config) {
        Some(error) => result == Err::<ConnectionView, CoreError>(error),
        None => exists|first: ConnectionView, greeted: ConnectionView, timed: Result<(), CoreError>|
            #[trigger]
            client_greeted(first, greeted, timed) && started(
                first,
                ConnectionRole::Client,
                id,
                config,
                handshake,
            ) && match timed {
                Err(error) => result == Err::<ConnectionView, CoreError>(error),
                Ok(_) => match result {
                    Ok(view) => sent_on(wire, greeted, view, Ok(())),
                    Err(error) => sending_fails(wire, greeted, error),
                },
            },
    }
}

/// The connection in another state, which is announced.
pub open spec fn state_set(view: ConnectionView, state: ConnectionState) -> ConnectionView {
    if view.state == state {
        view
    } else {
        ConnectionView {
            state,
            output: view.output.push(OutputView::ConnectionStateChanged(state)),
            ..view
        }
    }
}

/// The connection with a frame queued.
pub open spec fn queued(view: ConnectionView, frame: FrameView) -> ConnectionView {
    ConnectionView {
        transport: TransportView {
            pending: view.transport.pending.push(QueuedView { frame, retransmit_count: 0 }),
            ..view.transport
        },
        ..view
    }
}

/// The connection with one announcement more.
pub open spec fn announced(view: ConnectionView, output: OutputView) -> ConnectionView {
    ConnectionView { output: view.output.push(output), ..view }
}

/// Packets were sent, and nothing else happened.
pub open spec fn sent_on<W: Wire>(
    wire: &W,
    before: ConnectionView,
    after: ConnectionView,
    result: Result<(), CoreError>,
) -> bool {
    &&& after == (ConnectionView {
        streams: after.streams,
        transport: after.transport,
        timers: after.timers,
        output: after.output,
        send: after.send,
        ..before
    })
    &&& flushed(
        before.transport,
        after.transport,
        before.send,
        after.send,
        before.output,
        after.output,
        before.id,
    )
    &&& only_sending_changed(before.streams, after.streams)
    &&& after.timers == (TimersView {
        timers: after.timers.timers,
        slots: after.timers.slots,
        ack: after.timers.ack,
        ..before.timers
    })
    &&& result matches Err(error) ==> sending_error(error)
    &&& result is Ok ==> at_rest(
        after.transport,
        after.streams,
        after.send,
        after.config.max_datagram_size,
    )
    &&& nothing_to_send(before.transport, before.streams) ==> result is Ok && after == before
    &&& sending_done(
        wire,
        sending_side(before),
        identity_of(before),
        before.config,
        sending_side(after),
        result,
    )
}

/// What sending works on.
pub open spec fn sending_side(view: ConnectionView) -> SendingView {
    SendingView {
        transport: view.transport,
        timers: view.timers,
        streams: view.streams,
        send: view.send,
        output: view.output,
    }
}

/// The side conditions under which packets are sent. Data is encrypted once the
/// keys are in use.
pub open spec fn identity_of(view: ConnectionView) -> FlushIdentity {
    FlushIdentity {
        connection_id: view.id,
        state: view.state,
        now: view.now,
        encrypt_data: view.crypto_active && (view.state == ConnectionState::Established
            || view.state == ConnectionState::Closing),
    }
}

/// Whether only data packets of an established connection carry such frames.
pub open spec fn takes_data(view: ConnectionView, packet_type: PacketType) -> bool {
    packet_type == PacketType::Data && view.state == ConnectionState::Established
}

/// The connection once the hello of a client was taken, up to its keys.
pub open spec fn client_hello_noted(
    view: ConnectionView,
    hello: ClientHelloView,
) -> ConnectionView {
    ConnectionView {
        handshake: HandshakeView {
            peer_client_nonce: Some(hello.client_nonce),
            peer_cookie: hello.cookie,
            peer_max_streams: lesser(
                view.handshake.peer_max_streams as int,
                hello.max_streams as int,
            ) as u32,
            peer_initial_stream_window: hello.initial_stream_window,
            ..view.handshake
        },
        config: if view.state != ConnectionState::Established {
            narrowed(view.config, hello.max_datagram_size)
        } else {
            view.config
        },
        ..view
    }
}

/// The connection once the hello of a client was answered.
pub open spec fn client_hello_answered(
    view: ConnectionView,
    hello: ClientHelloView,
    keys: KeyExchange,
) -> ConnectionView {
    let noted = client_hello_noted(view, hello);
    let frame = server_hello(noted.handshake, noted.config, keys.finished@, hello.cookie);
    queued(
        ConnectionView {
            handshake: HandshakeView {
                transcript_hash: Some(keys.transcript_hash@),
                has_keys: true,
                frame: Some(frame),
                ..noted.handshake
            },
            send: if view.state != ConnectionState::Established {
                SendFlowControl {
                    connection_max_offset: hello.initial_connection_window,
                    ..noted.send
                }
            } else {
                noted.send
            },
            crypto_active: true,
            ..noted
        },
        frame,
    )
}

/// What the hello of a client does, for an answer of the key exchange.
pub open spec fn client_hello_done(
    before: ConnectionView,
    hello: ClientHelloView,
    exchange: Result<KeyExchange, CryptoError>,
    after: ConnectionView,
    result: Result<(), CoreError>,
) -> bool {
    match exchange {
        Err(problem) => {
            &&& after == client_hello_noted(before, hello)
            &&& result == Err::<(), CoreError>(CoreError::Crypto(problem))
        },
        Ok(keys) => {
            let answered = client_hello_answered(before, hello, keys);
            if before.state != ConnectionState::Idle {
                after == answered && result is Ok
            } else {
                &&& handshake_timer_set(
                    answered.timers,
                    after.timers,
                    answered.config.handshake_timeout,
                    result,
                )
                &&& after == (if result is Ok {
                    state_set(
                        ConnectionView { timers: after.timers, ..answered },
                        ConnectionState::Handshaking,
                    )
                } else {
                    answered
                })
            }
        },
    }
}

/// The connection once the hello of a server was taken, up to its keys.
pub open spec fn server_hello_noted(
    view: ConnectionView,
    hello: ServerHelloView,
) -> ConnectionView {
    ConnectionView {
        handshake: HandshakeView {
            peer_cookie: hello.cookie,
            peer_max_streams: lesser(
                view.handshake.peer_max_streams as int,
                hello.max_streams as int,
            ) as u32,
            peer_initial_stream_window: hello.initial_stream_window,
            ..view.handshake
        },
        config: narrowed(view.config, hello.max_datagram_size),
        ..view
    }
}

/// What the hello of a server does, for an answer of the key exchange.
pub open spec fn server_hello_done(
    before: ConnectionView,
    hello: ServerHelloView,
    exchange: Result<KeyExchange, CryptoError>,
    after: ConnectionView,
    result: Result<(), CoreError>,
) -> bool {
    let noted = server_hello_noted(before, hello);
    match exchange {
        Err(problem) => {
            &&& after == noted
            &&& result == Err::<(), CoreError>(CoreError::Crypto(problem))
        },
        Ok(keys) => {
            let frame = FrameView::HandshakeAck {
                cookie: hello.cookie,
                client_finished: keys.finished@,
            };
            let answered = queued(
                ConnectionView {
                    handshake: HandshakeView {
                        transcript_hash: Some(keys.transcript_hash@),
                        has_keys: true,
                        frame: Some(frame),
                        ..noted.handshake
                    },
                    send: SendFlowControl {
                        connection_max_offset: hello.initial_connection_window,
                        ..noted.send
                    },
                    timers: TimersView {
                        handshake: None,
                        ..without(noted.timers, noted.timers.handshake)
                    },
                    ..noted
                },
                frame,
            );
            &&& result is Ok
            &&& after == (ConnectionView {
                crypto_active: true,
                ..state_set(answered, ConnectionState::Established)
            })
        },
    }
}

/// What the last message of the handshake does, given whether its proof holds.
pub open spec fn handshake_ack_done(
    before: ConnectionView,
    verified: Result<(), CryptoError>,
    after: ConnectionView,
    result: Result<(), CoreError>,
) -> bool {
    match verified {
        Err(problem) => {
            &&& after == before
            &&& result == Err::<(), CoreError>(CoreError::Crypto(problem))
        },
        Ok(_) => {
            let established = state_set(
                ConnectionView {
                    timers: TimersView {
                        handshake: None,
                        ..without(before.timers, before.timers.handshake)
                    },
                    ..before
                },
                ConnectionState::Established,
            );
            &&& result is Ok
            &&& after == (ConnectionView { crypto_active: true, ..established })
        },
    }
}

/// What a retry does: the hello is repeated with the cookie.
pub open spec fn retry_done(
    before: ConnectionView,
    packet_type: PacketType,
    cookie: Seq<u8>,
    after: ConnectionView,
    result: Result<(), CoreError>,
) -> bool {
    if before.role != ConnectionRole::Client || packet_type != PacketType::Retry || before.state
        != ConnectionState::Handshaking || cookie.len() == 0 || cookie.len()
        > before.config.limits.max_cookie_len {
        after == before && result == Err::<(), CoreError>(CoreError::InvalidPacketType)
    } else if before.handshake.client_nonce is None {
        after == before && result == Err::<(), CoreError>(
            (CoreError::InvalidState { operation: "receive retry before client hello" }),
        )
    } else {
        let frame = client_hello(before.handshake, after.config);
        &&& after.config == (ConnectionConfig {
            handshake_cookie: after.config.handshake_cookie,
            ..before.config
        })
        &&& after.config.handshake_cookie@ == cookie
        &&& handshake_timer_set(
            before.timers,
            after.timers,
            before.config.handshake_timeout,
            result,
        )
        &&& after == (ConnectionView {
            config: after.config,
            handshake: HandshakeView { frame: Some(frame), ..before.handshake },
            transport: TransportView {
                pending: seq![QueuedView { frame, retransmit_count: 0 }]
                    + before.transport.pending,
                ..before.transport
            },
            timers: after.timers,
            ..before
        })
    }
}

/// What a request to open a stream does.
pub open spec fn stream_open_done(
    before: ConnectionView,
    packet_type: PacketType,
    open: StreamOpen,
    after: ConnectionView,
    result: Result<(), CoreError>,
) -> bool {
    let id = open.stream_id.value;
    if !takes_data(before, packet_type) {
        after == before && result == Err::<(), CoreError>(CoreError::InvalidPacketType)
    } else if id % 2 == before.role.parity() {
        after == before && result == Err::<(), CoreError>(
            (CoreError::InvalidStreamId { stream_id: open.stream_id }),
        )
    } else if before.streams.contains_key(id) {
        &&& after == before
        &&& if before.streams[id].send.max_offset != open.initial_receive_window {
            result == Err::<(), CoreError>(
                (CoreError::InvalidState {
                    operation: "stream was opened with different parameters",
                }),
            )
        } else {
            result is Ok
        }
    } else if before.streams.dom().len() >= allowed_streams(before) {
        after == before && result == Err::<(), CoreError>(CoreError::StreamLimit)
    } else {
        &&& result is Ok
        &&& opened(
            after.streams[id],
            open.stream_id,
            open.bidirectional,
            open.initial_receive_window,
            before.config.initial_stream_window,
        )
        &&& after == announced(
            ConnectionView {
                streams: before.streams.insert(id, after.streams[id]),
                ..before
            },
            OutputView::StreamOpened(open.stream_id),
        )
    }
}

/// The number of streams that both sides allow.
pub open spec fn allowed_streams(view: ConnectionView) -> int {
    lesser(view.config.max_streams as int, view.handshake.peer_max_streams as int)
}

/// What bytes of a stream do.
pub open spec fn stream_data_done(
    before: ConnectionView,
    packet_type: PacketType,
    data: StreamDataView,
    after: ConnectionView,
    result: Result<(), CoreError>,
) -> bool {
    let id = data.stream_id.value;
    let stream = before.streams[id];
    if !takes_data(before, packet_type) {
        after == before && result == Err::<(), CoreError>(CoreError::InvalidPacketType)
    } else if !before.streams.contains_key(id) {
        after == before && result == Err::<(), CoreError>(
            (CoreError::UnknownStream { stream_id: data.stream_id }),
        )
    } else {
        match new_bytes_of(stream, data, before.config.max_receive_buffer) {
            Err(error) => after == before && result == Err::<(), CoreError>(error),
            Ok(count) => if before.receive.unique_received + count > u64::MAX
                || before.receive.unique_received + count > before.receive.max_offset {
                after == before && result == Err::<(), CoreError>(
                    (CoreError::FlowControlViolation { stream_id: None }),
                )
            } else if stream.state != StreamState::Open {
                &&& after == before
                &&& if lesser(stream.recv.buffered() as int, usize::MAX as int)
                    > before.config.max_receive_buffer {
                    result == Err::<(), CoreError>(CoreError::ReceiveBufferFull)
                } else {
                    result is Ok
                }
            } else if insert_error(stream.recv, data.offset, data.data.len(), data.fin) is Some {
                after == before && result == Err::<(), CoreError>(
                    insert_error(stream.recv, data.offset, data.data.len(), data.fin)->0,
                )
            } else {
                stream_data_taken(before, data, count, after, result)
            },
        }
    }
}

/// What bytes of a stream do that are accepted.
pub open spec fn stream_data_taken(
    before: ConnectionView,
    data: StreamDataView,
    count: nat,
    after: ConnectionView,
    result: Result<(), CoreError>,
) -> bool {
    let id = data.stream_id.value;
    let stream = before.streams[id];
    let taken = after.streams[id];
    let finished = taken.recv.final_offset == Some(taken.recv.next_offset)
        && taken.recv.ready.len() == 0;
    let full = lesser(taken.recv.buffered() as int, usize::MAX as int) > before.config.max_receive_buffer;
    &&& delivered(stream.recv, merged(stream.recv, data.offset, data.data), taken.recv)
    &&& taken.recv.final_offset == (if data.fin {
        Some((data.offset + data.data.len()) as u64)
    } else {
        stream.recv.final_offset
    })
    &&& taken == (StreamView {
        recv: taken.recv,
        state: if finished && !full {
            StreamState::Finished
        } else {
            stream.state
        },
        ..stream
    })
    &&& ({
        let counted = ConnectionView {
            streams: before.streams.insert(id, taken),
            receive: ReceiveFlowControl {
                unique_received: (before.receive.unique_received + count) as u64,
                ..before.receive
            },
            ..before
        };
        if full {
            after == counted && result == Err::<(), CoreError>(CoreError::ReceiveBufferFull)
        } else {
            &&& result is Ok
            &&& after == (if taken.recv.ready.len() > 0 {
                announced(counted, OutputView::StreamReadable(data.stream_id))
            } else if finished {
                announced(counted, OutputView::StreamFinished(data.stream_id))
            } else {
                counted
            })
        }
    })
}

/// What the end of a stream by an error does.
pub open spec fn reset_done(
    before: ConnectionView,
    packet_type: PacketType,
    reset: ResetStream,
    after: ConnectionView,
    result: Result<(), CoreError>,
) -> bool {
    let id = reset.stream_id.value;
    if !takes_data(before, packet_type) {
        after == before && result == Err::<(), CoreError>(CoreError::InvalidPacketType)
    } else if !before.streams.contains_key(id) {
        after == before && result == Err::<(), CoreError>(
            (CoreError::UnknownStream { stream_id: reset.stream_id }),
        )
    } else {
        &&& result is Ok
        &&& after == announced(
            ConnectionView {
                streams: before.streams.insert(
                    id,
                    StreamView {
                        state: StreamState::Reset { error_code: reset.error_code },
                        ..before.streams[id]
                    },
                ),
                ..before
            },
            OutputView::StreamReset { stream_id: reset.stream_id, error_code: reset.error_code },
        )
    }
}

/// What a raised limit of a stream does.
pub open spec fn max_stream_data_done(
    before: ConnectionView,
    packet_type: PacketType,
    update: MaxStreamData,
    after: ConnectionView,
    result: Result<(), CoreError>,
) -> bool {
    let id = update.stream_id.value;
    let stream = before.streams[id];
    if !takes_data(before, packet_type) {
        after == before && result == Err::<(), CoreError>(CoreError::InvalidPacketType)
    } else if !before.streams.contains_key(id) {
        after == before && result == Err::<(), CoreError>(
            (CoreError::UnknownStream { stream_id: update.stream_id }),
        )
    } else {
        &&& result is Ok
        &&& after == (ConnectionView {
            streams: before.streams.insert(
                id,
                StreamView {
                    send: SendView {
                        max_offset: greater(
                            stream.send.max_offset as int,
                            update.max_offset as int,
                        ) as u64,
                        ..stream.send
                    },
                    ..stream
                },
            ),
            ..before
        })
    }
}

/// What the end of the connection by the other side does.
pub open spec fn close_received(
    before: ConnectionView,
    packet_type: PacketType,
    error_code: u32,
    after: ConnectionView,
    result: Result<(), CoreError>,
) -> bool {
    if packet_type != PacketType::Close {
        after == before && result == Err::<(), CoreError>(CoreError::InvalidPacketType)
    } else {
        &&& result is Ok
        &&& after == announced(
            state_set(
                ConnectionView {
                    close_error: Some(error_code),
                    timers: no_timers(before.timers),
                    ..before
                },
                ConnectionState::Closed,
            ),
            OutputView::ConnectionClosed { error_code },
        )
    }
}

/// The timers once all are taken back.
pub open spec fn no_timers(timers: TimersView) -> TimersView {
    TimersView {
        timers: Map::empty(),
        slots: slots_emptied(timers.slots),
        handshake: None,
        ack: None,
        keepalive: None,
        idle: None,
        close: None,
        ..timers
    }
}

/// What a larger window of the connection does.
pub open spec fn max_data_done(
    before: ConnectionView,
    packet_type: PacketType,
    update: MaxData,
    after: ConnectionView,
    result: Result<(), CoreError>,
) -> bool {
    if !takes_data(before, packet_type) {
        after == before && result == Err::<(), CoreError>(CoreError::InvalidPacketType)
    } else {
        &&& result is Ok
        &&& after == (ConnectionView {
            send: SendFlowControl {
                connection_max_offset: greater(
                    before.send.connection_max_offset as int,
                    update.max_offset as int,
                ) as u64,
                ..before.send
            },
            ..before
        })
    }
}

/// What a ping does: its number is sent back.
pub open spec fn ping_done(
    before: ConnectionView,
    packet_type: PacketType,
    ping: Ping,
    after: ConnectionView,
    result: Result<(), CoreError>,
) -> bool {
    if !takes_data(before, packet_type) {
        after == before && result == Err::<(), CoreError>(CoreError::InvalidPacketType)
    } else {
        &&& result is Ok
        &&& after == queued(before, FrameView::Pong(Pong { nonce: ping.nonce }))
    }
}

/// What one frame does.
pub open spec fn frame_done<W: Wire>(
    wire: &W,
    before: ConnectionView,
    packet_type: PacketType,
    frame: FrameView,
    after: ConnectionView,
    result: Result<(), CoreError>,
) -> bool {
    match frame {
        FrameView::ClientHello(hello) => match client_hello_refused(
            before.handshake,
            before.role,
            packet_type,
            hello.client_nonce,
        ) {
            Some(error) => after == before && result == Err::<(), CoreError>(error),
            None => exists|exchange: Result<KeyExchange, CryptoError>| #[trigger]
                client_hello_done(before, hello, exchange, after, result) && answers_client(
                    wire,
                    before.handshake,
                    hello,
                    exchange,
                ),
        },
        FrameView::ServerHello(hello) => if before.role != ConnectionRole::Client || packet_type
            != PacketType::Handshake || before.state != ConnectionState::Handshaking {
            after == before && result == Err::<(), CoreError>(CoreError::InvalidPacketType)
        } else if before.handshake.client_nonce is None {
            after == server_hello_noted(before, hello) && result == Err::<(), CoreError>(
                (CoreError::InvalidState {
                    operation: "receive server hello before client hello",
                }),
            )
        } else {
            exists|exchange: Result<KeyExchange, CryptoError>| #[trigger]
                server_hello_done(before, hello, exchange, after, result) && answers_server(
                    wire,
                    before.handshake,
                    hello,
                    exchange,
                )
        },
        FrameView::HandshakeAck { cookie, client_finished } => match handshake_ack_refused(
            before.handshake,
            before.role,
            packet_type,
            cookie,
            before.state,
        ) {
            Some(error) => after == before && result == Err::<(), CoreError>(error),
            None => exists|verified: Result<(), CryptoError>| #[trigger]
                handshake_ack_done(before, verified, after, result) && verifies(
                    wire,
                    before.handshake,
                    client_finished,
                    verified,
                ),
        },
        FrameView::Retry { cookie } => retry_done(before, packet_type, cookie, after, result),
        FrameView::StreamOpen(open) => stream_open_done(before, packet_type, open, after, result),
        FrameView::StreamData(data) => stream_data_done(before, packet_type, data, after, result),
        FrameView::ResetStream(reset) => reset_done(before, packet_type, reset, after, result),
        FrameView::MaxStreamData(update) => max_stream_data_done(
            before,
            packet_type,
            update,
            after,
            result,
        ),
        FrameView::MaxData(update) => max_data_done(before, packet_type, update, after, result),
        FrameView::Ping(ping) => ping_done(before, packet_type, ping, after, result),
        FrameView::Pong(_) => after == before && result is Ok,
        FrameView::ConnectionClose { error_code, .. } => close_received(
            before,
            packet_type,
            error_code,
            after,
            result,
        ),
        FrameView::Ack(_) => after == before && result is Ok,
    }
}

/// What one frame does after what came before it: nothing, after an error.
pub open spec fn frame_follows<W: Wire>(
    wire: &W,
    before: ConnectionView,
    so_far: Result<(), CoreError>,
    packet_type: PacketType,
    frame: FrameView,
    after: ConnectionView,
    result: Result<(), CoreError>,
) -> bool {
    if so_far is Ok {
        frame_done(wire, before, packet_type, frame, after, result)
    } else {
        after == before && result == so_far
    }
}

/// What the first `count` frames do, one after the other, up to an error.
pub open spec fn frames_done<W: Wire>(
    wire: &W,
    before: ConnectionView,
    packet_type: PacketType,
    frames: Seq<FrameView>,
    count: int,
    after: ConnectionView,
    result: Result<(), CoreError>,
) -> bool
    decreases count,
{
    if count <= 0 {
        after == before && result is Ok
    } else {
        exists|middle: ConnectionView, so_far: Result<(), CoreError>| #[trigger]
            frame_follows(
                wire,
                middle,
                so_far,
                packet_type,
                frames[count - 1],
                after,
                result,
            ) && frames_done(wire, before, packet_type, frames, count - 1, middle, so_far)
    }
}

/// What an acknowledgement does that fits the packets that were sent, whose
/// `numbers` are given.
pub open spec fn ack_applied(
    before: ConnectionView,
    ack: AckView,
    numbers: Seq<u64>,
    after: ConnectionView,
    result: Result<(), CoreError>,
) -> bool {
    let count = numbers.len() as int;
    let acked = ack_run(
        AckRun {
            sent: before.transport.sent,
            timers: before.timers.timers,
            slots: before.timers.slots,
            congestion: before.transport.congestion,
            pending: before.transport.pending,
            streams: before.streams,
            failed: None,
        },
        numbers,
        ack.ranges,
        count,
    );
    let run = loss_run(
        acked,
        numbers,
        ack.ranges,
        before.config.fast_loss_threshold,
        before.config.max_retransmissions,
        count,
    );
    let moved = ConnectionView {
        streams: run.streams,
        transport: TransportView {
            sent: run.sent,
            congestion: run.congestion,
            pending: run.pending,
            rtt: after.transport.rtt,
            ..before.transport
        },
        timers: TimersView { timers: run.timers, slots: run.slots, ..before.timers },
        ..before
    };
    &&& match sampled(before.transport.sent, numbers, ack.ranges, count) {
        Some(number) => measured(
            before.transport.rtt,
            after.transport.rtt,
            greater(before.now@ - before.transport.sent[number].sent_at@, 0) as nat,
            ack.ack_delay,
        ),
        None => after.transport.rtt == before.transport.rtt,
    }
    &&& failed_or(moved, run.failed, after, result)
}

/// An acknowledgement or a timeout ends with this failure, if any: a frame that
/// was lost too often ends the connection.
pub open spec fn failed_or(
    moved: ConnectionView,
    failed: Option<CoreError>,
    after: ConnectionView,
    result: Result<(), CoreError>,
) -> bool {
    match failed {
        None => after == moved && result is Ok,
        Some(error) => {
            &&& result == Err::<(), CoreError>(error)
            &&& after == (if error == CoreError::RetransmissionLimit {
                state_set(
                    ConnectionView { close_error: Some(3), ..moved },
                    ConnectionState::Closing,
                )
            } else {
                moved
            })
        },
    }
}

/// What an acknowledgement does, given whether its layout is right.
pub open spec fn ack_done(
    before: ConnectionView,
    ack: AckView,
    checked: Result<(), ProtocolError>,
    after: ConnectionView,
    result: Result<(), CoreError>,
) -> bool {
    match checked {
        Err(problem) => after == before && result == Err::<(), CoreError>(
            CoreError::Protocol(problem),
        ),
        Ok(_) => if ack.largest >= before.transport.next_packet_number {
            after == before && result == Err::<(), CoreError>(CoreError::AckForUnsentPacket)
        } else {
            exists|numbers: Seq<u64>| #[trigger]
                rising_numbers(numbers, before.transport.sent) && ack_applied(
                    before,
                    ack,
                    numbers,
                    after,
                    result,
                )
        },
    }
}

/// What an acknowledgement does. The layout decides whether it is right.
pub open spec fn ack_taken<W: Wire>(
    wire: &W,
    before: ConnectionView,
    ack: AckView,
    after: ConnectionView,
    result: Result<(), CoreError>,
) -> bool {
    exists|checked: Result<(), ProtocolError>| #[trigger]
        ack_done(before, ack, checked, after, result) && checks(wire, ack, checked)
}

/// What a frame does as far as it is an acknowledgement, after what came before it:
/// nothing, after an error.
pub open spec fn ack_follows<W: Wire>(
    wire: &W,
    before: ConnectionView,
    so_far: Result<(), CoreError>,
    frame: FrameView,
    after: ConnectionView,
    result: Result<(), CoreError>,
) -> bool {
    if so_far is Ok {
        match frame {
            FrameView::Ack(ack) => ack_taken(wire, before, ack, after, result),
            _ => after == before && result is Ok,
        }
    } else {
        after == before && result == so_far
    }
}

/// What the acknowledgements among the first `count` frames do, one after the
/// other, up to an error.
pub open spec fn acks_done<W: Wire>(
    wire: &W,
    before: ConnectionView,
    frames: Seq<FrameView>,
    count: int,
    after: ConnectionView,
    result: Result<(), CoreError>,
) -> bool
    decreases count,
{
    if count <= 0 {
        after == before && result is Ok
    } else {
        exists|middle: ConnectionView, so_far: Result<(), CoreError>| #[trigger]
            ack_follows(wire, middle, so_far, frames[count - 1], after, result) && acks_done(
                wire,
                before,
                frames,
                count - 1,
                middle,
                so_far,
            )
    }
}

/// A packet has come: the idle timer starts again, and its number is noted.
pub open spec fn packet_noted(
    before: ConnectionView,
    packet: PacketView,
    after: ConnectionView,
    result: Result<(), CoreError>,
) -> bool {
    let rest = TimersView {
        idle: None,
        ..without(before.timers, before.timers.idle)
    };
    let delay = before.config.idle_timeout;
    match result {
        Err(error) => {
            &&& timer_refused(rest, delay) == Some(error)
            &&& after == (ConnectionView { timers: rest, ..before })
        },
        Ok(_) => {
            &&& timer_refused(rest, delay) is None
            &&& after.timers.idle matches Some(id) && !rest.timers.contains_key(id.value())
                && after.timers == (TimersView {
                idle: Some(id),
                ..with_timer(rest, TimerEvent::IdleTimeout, delay, id)
            })
            &&& after == (ConnectionView {
                timers: after.timers,
                transport: after.transport,
                ..before
            })
            &&& if repeated(before, packet) || packet.packet_type == PacketType::Retry {
                after.transport == before.transport
            } else {
                number_noted(
                    before.transport,
                    packet.packet_number.value,
                    before.now,
                    after.transport,
                )
            }
        },
    }
}

/// Whether a packet with this number has come before. The number of a retry
/// means nothing.
pub open spec fn repeated(view: ConnectionView, packet: PacketView) -> bool {
    packet.packet_type != PacketType::Retry && ranges_hold(
        view.transport.held,
        packet.packet_number.value,
    )
}

/// A number is among those of the packets that came; the oldest ranges may go.
pub open spec fn number_noted(
    before: TransportView,
    number: u64,
    now: Duration,
    after: TransportView,
) -> bool {
    &&& exists|wider: Seq<AckRange>| #[trigger]
        ranges_with(before.held, wider, number) && after.held == first_ranges(
            wider,
            before.max_ranges as nat,
        )
    &&& after == (TransportView {
        held: after.held,
        largest_at: if before.held.len() == 0 || before.held[0].end.value < number {
            Some(now)
        } else {
            before.largest_at
        },
        ..before
    })
}

/// The frames of a packet are taken, unless it has come before.
pub open spec fn frames_taken<W: Wire>(
    wire: &W,
    first: ConnectionView,
    packet: PacketView,
    before: ConnectionView,
    after: ConnectionView,
    result: Result<(), CoreError>,
) -> bool {
    if repeated(first, packet) {
        after == before && result is Ok
    } else {
        frames_done(
            wire,
            before,
            packet.packet_type,
            packet.frames,
            packet.frames.len() as int,
            after,
            result,
        )
    }
}

/// What follows once the frames of a packet are taken: an acknowledgement is
/// set going where one of them asks for it, and what can be sent is sent.
pub open spec fn packet_answered<W: Wire>(
    wire: &W,
    before: ConnectionView,
    asks: bool,
    after: ConnectionView,
    result: Result<(), CoreError>,
) -> bool {
    exists|asked: ConnectionView, outcome: Result<(), CoreError>| #[trigger]
        ack_asked(before, asks, asked, outcome) && if outcome is Ok {
            sent_on(wire, asked, after, result)
        } else {
            after == asked && result == outcome
        }
}

/// A packet is answered as its frames ask for it. Which frames ask for an
/// acknowledgement is up to the layout.
pub open spec fn answer_given<W: Wire>(
    wire: &W,
    before: ConnectionView,
    frames: Seq<FrameView>,
    after: ConnectionView,
    result: Result<(), CoreError>,
) -> bool {
    exists|asks: bool| #[trigger]
        packet_answered(wire, before, asks, after, result) && some_elicits(wire, frames, asks)
}

/// What a packet of this connection does: its number is noted, its
/// acknowledgements are taken, then its other frames in order, and an answer is
/// sent. An error stops it where it comes up.
pub open spec fn datagram_done<W: Wire>(
    wire: &W,
    before: ConnectionView,
    packet: PacketView,
    after: ConnectionView,
    result: Result<(), CoreError>,
) -> bool {
    exists|noted: ConnectionView, first: Result<(), CoreError>| #[trigger]
        packet_noted(before, packet, noted, first) && if first is Ok {
            exists|acked: ConnectionView, second: Result<(), CoreError>| #[trigger]
                acks_done(wire, noted, packet.frames, packet.frames.len() as int, acked, second)
                    && if second is Ok {
                    exists|taken: ConnectionView, third: Result<(), CoreError>| #[trigger]
                        frames_taken(wire, before, packet, acked, taken, third) && if third is Ok {
                            answer_given(wire, taken, packet.frames, after, result)
                        } else {
                            after == taken && result == third
                        }
                } else {
                    after == acked && result == second
                }
        } else {
            after == noted && result == first
        }
}

/// Nothing that was announced is taken back, and the connection is the same one.
pub open spec fn continues(before: ConnectionView, after: ConnectionView) -> bool {
    &&& after.role == before.role
    &&& after.id == before.id
    &&& after.output.len() >= before.output.len()
    &&& after.output.subrange(0, before.output.len() as int) == before.output
}

/// Ending the connection from this side, up to sending: the end is announced,
/// its frame queued and its timer set.
pub open spec fn close_prepared(
    before: ConnectionView,
    error_code: u32,
    reason: Seq<char>,
    after: ConnectionView,
    result: Result<(), CoreError>,
) -> bool {
    let closing = queued(
        state_set(
            ConnectionView { close_error: Some(error_code), ..before },
            ConnectionState::Closing,
        ),
        FrameView::ConnectionClose { error_code, frame_type: 0, reason },
    );
    let delay = before.config.close_timeout;
    match result {
        Ok(_) => {
            &&& timer_refused(before.timers, delay) is None
            &&& after.timers.close matches Some(id) && !before.timers.timers.contains_key(
                id.value(),
            ) && after == (ConnectionView {
                timers: TimersView {
                    close: after.timers.close,
                    ..with_timer(before.timers, TimerEvent::CloseTimeout, delay, id)
                },
                ..closing
            })
        },
        Err(error) => timer_refused(before.timers, delay) == Some(error) && after == closing,
    }
}

/// Ending the connection from this side.
pub open spec fn close_done<W: Wire>(
    wire: &W,
    before: ConnectionView,
    error_code: u32,
    reason: Seq<char>,
    after: ConnectionView,
    result: Result<(), CoreError>,
) -> bool {
    if before.state == ConnectionState::Closed {
        after == before && result is Ok
    } else {
        exists|middle: ConnectionView, prepared: Result<(), CoreError>| #[trigger]
            close_prepared(before, error_code, reason, middle, prepared) && match prepared {
                Ok(_) => sent_on(wire, middle, after, result),
                Err(_) => after == middle && result == prepared,
            }
    }
}

/// What a timer does.
pub open spec fn timer_done<W: Wire>(
    wire: &W,
    before: ConnectionView,
    event: TimerEvent,
    after: ConnectionView,
    result: Result<(), CoreError>,
) -> bool {
    match event {
        TimerEvent::HandshakeTimeout => if before.state != ConnectionState::Handshaking {
            after == before && result is Ok
        } else if before.handshake.frame is None || before.handshake.retries
            >= before.config.max_retransmissions {
            close_done(wire, before, 1, "handshake timeout"@, after, result)
        } else {
            &&& handshake_timer_set(
                before.timers,
                after.timers,
                before.config.handshake_timeout,
                result,
            )
            &&& after == (ConnectionView {
                handshake: HandshakeView {
                    retries: lesser(before.handshake.retries + 1, u32::MAX as int) as u32,
                    ..before.handshake
                },
                transport: TransportView {
                    pending: seq![
                        QueuedView { frame: before.handshake.frame->0, retransmit_count: 0 },
                    ] + before.transport.pending,
                    ..before.transport
                },
                timers: after.timers,
                ..before
            })
        },
        TimerEvent::Retransmit { packet_number, generation } => {
            let number = packet_number.value;
            let packet = before.transport.sent[number];
            if !before.transport.sent.contains_key(number) || packet.generation != generation {
                after == before && result is Ok
            } else {
                let run = requeue_step(
                    AckRun {
                        sent: before.transport.sent.remove(number),
                        timers: Map::empty(),
                        slots: Map::empty(),
                        congestion: before.transport.congestion.after_loss(packet.encoded_len),
                        pending: before.transport.pending,
                        streams: before.streams,
                        failed: None,
                    },
                    packet.frame.frame,
                    packet.retransmit_count,
                    before.config.max_retransmissions,
                );
                let lost = ConnectionView {
                    streams: run.streams,
                    transport: TransportView {
                        sent: run.sent,
                        congestion: run.congestion,
                        pending: run.pending,
                        rtt: after.transport.rtt,
                        ..before.transport
                    },
                    ..before
                };
                &&& after.transport.rtt.same_bounds(before.transport.rtt)
                &&& after.transport.rtt.srtt == before.transport.rtt.srtt
                &&& after.transport.rtt.rttvar == before.transport.rtt.rttvar
                &&& after.transport.rtt.rto@ == lesser(
                    (before.transport.rtt.rto@ * 2) as int,
                    before.transport.rtt.max_rto@ as int,
                )
                &&& failed_or(lost, run.failed, after, result)
            }
        },
        TimerEvent::AckDelay => {
            &&& result is Ok
            &&& after == (ConnectionView {
                transport: TransportView {
                    ack_ready: before.transport.ack_ready || before.transport.ack_pending,
                    ..before.transport
                },
                ..before
            })
        },
        TimerEvent::Keepalive => {
            let nonce = if before.transport.last_ping_nonce == u64::MAX {
                0u64
            } else {
                (before.transport.last_ping_nonce + 1) as u64
            };
            let pinged = if before.state == ConnectionState::Established {
                ConnectionView {
                    transport: TransportView {
                        last_ping_nonce: nonce,
                        pending: before.transport.pending.push(
                            QueuedView {
                                frame: FrameView::Ping(Ping { nonce }),
                                retransmit_count: 0,
                            },
                        ),
                        ..before.transport
                    },
                    ..before
                }
            } else {
                before
            };
            match before.config.keepalive_interval {
                None => after == pinged && result is Ok,
                Some(interval) => match result {
                    Ok(_) => {
                        &&& timer_refused(before.timers, interval) is None
                        &&& after.timers.keepalive matches Some(id)
                            && !before.timers.timers.contains_key(id.value()) && after == (
                        ConnectionView {
                            timers: TimersView {
                                keepalive: after.timers.keepalive,
                                ..with_timer(before.timers, TimerEvent::Keepalive, interval, id)
                            },
                            ..pinged
                        })
                    },
                    Err(error) => timer_refused(before.timers, interval) == Some(error) && after
                        == pinged,
                },
            }
        },
        TimerEvent::IdleTimeout => if before.state == ConnectionState::Closed || before.state
            == ConnectionState::Closing {
            after == before && result is Ok
        } else {
            close_done(wire, before, 2, "idle timeout"@, after, result)
        },
        TimerEvent::CloseTimeout => {
            &&& result is Ok
            &&& after == announced(
                state_set(
                    ConnectionView { timers: no_timers(before.timers), ..before },
                    ConnectionState::Closed,
                ),
                OutputView::ConnectionClosed {
                    error_code: match before.close_error {
                        Some(code) => code,
                        None => 0,
                    },
                },
            )
        },
    }
}

/// The connection with the slot of a timer that has fired emptied.
pub open spec fn slot_cleared(view: ConnectionView, event: TimerEvent) -> ConnectionView {
    let timers = view.timers;
    ConnectionView {
        timers: match event {
            TimerEvent::HandshakeTimeout => TimersView { handshake: None, ..timers },
            TimerEvent::AckDelay => TimersView { ack: None, ..timers },
            TimerEvent::Keepalive => TimersView { keepalive: None, ..timers },
            TimerEvent::IdleTimeout => TimersView { idle: None, ..timers },
            TimerEvent::CloseTimeout => TimersView { close: None, ..timers },
            TimerEvent::Retransmit { .. } => timers,
        },
        ..view
    }
}

/// Time has passed, and `events` are those of the timers that are then due.
pub open spec fn time_passed(
    before: ConnectionView,
    elapsed: Duration,
    events: Seq<TimerEvent>,
    after: ConnectionView,
) -> bool {
    let total = before.timers.remainder + elapsed@;
    &&& after.now@ == before.now@ + elapsed@
    &&& after.timers == (TimersView {
        timers: after.timers.timers,
        slots: after.timers.slots,
        tick: (before.timers.tick + total / before.timers.tick_nanos) as u64,
        remainder: total % before.timers.tick_nanos,
        ..before.timers
    })
    &&& after == (ConnectionView { now: after.now, timers: after.timers, ..before })
    &&& exists|gone: Seq<Expired<TimerEvent>>| #[trigger]
        moved(before.timers.timers, after.timers.timers, gone) && in_firing_order(
            gone,
            total / before.timers.tick_nanos,
        ) && slots_follow(
            before.timers,
            after.timers,
            gone,
            total / before.timers.tick_nanos,
        ) && events == items_of(gone)
    &&& forall|key: u64| #[trigger]
        before.timers.timers.contains_key(key) ==> (after.timers.timers.contains_key(key)
            <==> before.timers.timers[key].deadline_tick > after.timers.tick)
}

/// What a timer does that is due, after what came before it: nothing, after an
/// error.
pub open spec fn timer_follows<W: Wire>(
    wire: &W,
    before: ConnectionView,
    so_far: Result<(), CoreError>,
    event: TimerEvent,
    after: ConnectionView,
    result: Result<(), CoreError>,
) -> bool {
    if so_far is Ok {
        timer_done(wire, slot_cleared(before, event), event, after, result)
    } else {
        after == before && result == so_far
    }
}

/// What the first `count` timers do that are due, one after the other, up to an
/// error.
pub open spec fn timers_done<W: Wire>(
    wire: &W,
    before: ConnectionView,
    events: Seq<TimerEvent>,
    count: int,
    after: ConnectionView,
    result: Result<(), CoreError>,
) -> bool
    decreases count,
{
    if count <= 0 {
        after == before && result is Ok
    } else {
        exists|middle: ConnectionView, so_far: Result<(), CoreError>| #[trigger]
            timer_follows(wire, middle, so_far, events[count - 1], after, result) && timers_done(
                wire,
                before,
                events,
                count - 1,
                middle,
                so_far,
            )
    }
}

/// What time does that passes: timers that are due do what they are for, and
/// what can be sent is sent.
pub open spec fn time_done<W: Wire>(
    wire: &W,
    before: ConnectionView,
    elapsed: Duration,
    after: ConnectionView,
    result: Result<(), CoreError>,
) -> bool {
    let total = before.timers.remainder + elapsed@;
    let clocked = ConnectionView { now: after.now, ..before };
    if before.now@ + elapsed@ > MAX_NANOS {
        after == before && result == Err::<(), CoreError>(
            (CoreError::InvalidState { operation: "advance clock" }),
        )
    } else if total > u64::MAX {
        &&& after.now@ == before.now@ + elapsed@
        &&& after == clocked
        &&& result == Err::<(), CoreError>(CoreError::Timer(TimerError::ElapsedOverflow))
    } else if before.timers.tick + total / before.timers.tick_nanos > u64::MAX {
        &&& after.now@ == before.now@ + elapsed@
        &&& after == clocked
        &&& result == Err::<(), CoreError>(CoreError::Timer(TimerError::ClockOverflow))
    } else {
        exists|events: Seq<TimerEvent>, started: ConnectionView| #[trigger]
            time_passed(before, elapsed, events, started) && exists|
                done: ConnectionView,
                outcome: Result<(), CoreError>,
            | #[trigger]
                timers_done(wire, started, events, events.len() as int, done, outcome)
                    && if outcome is Ok {
                    sent_on(wire, done, after, result)
                } else {
                    after == done && result == outcome
                }
    }
}

/// An acknowledgement is set going where one is asked for.
pub open spec fn ack_asked(
    before: ConnectionView,
    asks: bool,
    after: ConnectionView,
    result: Result<(), CoreError>,
) -> bool {
    let delay = before.config.ack_delay;
    let asked = ConnectionView {
        transport: TransportView {
            ack_pending: true,
            ack_ready: before.transport.ack_ready || delay@ == 0,
            ..before.transport
        },
        timers: after.timers,
        ..before
    };
    let waits = delay@ != 0 && !before.transport.ack_ready && before.timers.ack is None;
    if !asks {
        after == before && result is Ok
    } else {
        &&& after == asked
        &&& if !waits {
            after.timers == before.timers && result is Ok
        } else {
            match result {
                Ok(_) => {
                    &&& timer_refused(before.timers, delay) is None
                    &&& after.timers.ack matches Some(id) && !before.timers.timers.contains_key(
                        id.value(),
                    ) && after.timers == (TimersView {
                        ack: Some(id),
                        ..with_timer(before.timers, TimerEvent::AckDelay, delay, id)
                    })
                },
                Err(error) => timer_refused(before.timers, delay) == Some(error) && after.timers
                    == before.timers,
            }
        }
    }
}

/// Whether all bytes of a stream came and were read.
pub open spec fn ended(stream: StreamView) -> bool {
    stream.recv.final_offset == Some(stream.recv.next_offset) && stream.recv.ready.len() == 0
}

/// A read leaves the stream shorter, raises limits and may announce its end.
pub open spec fn stream_read(
    before: ConnectionView,
    stream_id: StreamId,
    stream: StreamView,
    count: nat,
    after: ConnectionView,
) -> bool {
    let id = stream_id.value;
    let raised = stream.recv_flow.advertised_offset
        != before.streams[id].recv_flow.advertised_offset;
    let read = ConnectionView {
        streams: before.streams.insert(id, stream),
        receive: after.receive,
        ..before
    };
    let told = if raised {
        queued(
            read,
            FrameView::MaxStreamData(
                MaxStreamData { stream_id, max_offset: stream.recv_flow.advertised_offset },
            ),
        )
    } else {
        read
    };
    let consumed = lesser(before.receive.consumed + count, u64::MAX as int) as u64;
    let desired = lesser(consumed + before.receive.window_size, u64::MAX as int) as u64;
    &&& after == (if ended(stream) {
        announced(told, OutputView::StreamFinished(stream_id))
    } else {
        told
    })
    &&& after.receive == (if count == 0 {
        before.receive
    } else if desired > before.receive.advertised_offset {
        ReceiveFlowControl {
            consumed,
            advertised_offset: desired,
            max_offset: desired,
            ..before.receive
        }
    } else {
        ReceiveFlowControl { consumed, ..before.receive }
    })
}

/// Whether sending went well, in an operation that fails only there.
pub open spec fn sending<T>(result: Result<T, CoreError>) -> Result<(), CoreError> {
    match result {
        Ok(_) => Ok(()),
        Err(error) => Err(error),
    }
}

/// What opening a stream does.
pub open spec fn open_done<W: Wire>(
    wire: &W,
    before: ConnectionView,
    after: ConnectionView,
    result: Result<StreamId, CoreError>,
) -> bool {
    let next = before.next_stream;
    if before.state != ConnectionState::Established {
        &&& result == Err::<StreamId, CoreError>(
            (CoreError::InvalidState { operation: "open stream" }),
        )
        &&& after == before
    } else if before.streams.dom().len() >= allowed_streams(before) {
        result == Err::<StreamId, CoreError>(CoreError::StreamLimit) && after == before
    } else if next + 2 > u64::MAX {
        &&& result == Err::<StreamId, CoreError>(
            (CoreError::InvalidState { operation: "allocate stream ID" }),
        )
        &&& after == before
    } else {
        let id = StreamId { value: next };
        let window = before.handshake.peer_initial_stream_window;
        &&& result matches Ok(given) ==> given == id
        &&& !before.streams.contains_key(next)
        &&& exists|stream: StreamView| #[trigger]
            opened(stream, id, true, window, before.config.initial_stream_window) && sent_on(
                wire,
                queued(
                    ConnectionView {
                        streams: before.streams.insert(next, stream),
                        next_stream: (next + 2) as u64,
                        ..before
                    },
                    FrameView::StreamOpen(
                        StreamOpen {
                            stream_id: id,
                            initial_receive_window: window,
                            bidirectional: true,
                        },
                    ),
                ),
                after,
                sending(result),
            )
    }
}

/// Whether nothing is left to be sent or acknowledged.
pub open spec fn all_acknowledged(view: ConnectionView) -> bool {
    &&& view.transport.pending.len() == 0
    &&& view.transport.sent == Map::<u64, SentView>::empty()
    &&& forall|id: u64| #[trigger]
        view.streams.contains_key(id) ==> view.streams[id].send.queue.len() == 0
}

/// Why bytes cannot be written to a stream.
pub open spec fn write_refused(
    view: ConnectionView,
    stream_id: StreamId,
    length: nat,
) -> Option<CoreError> {
    let stream = view.streams[stream_id.value];
    if view.state != ConnectionState::Established {
        Some(CoreError::InvalidState { operation: "write stream" })
    } else if !view.streams.contains_key(stream_id.value) {
        Some(CoreError::UnknownStream { stream_id })
    } else if stream.state != StreamState::Open {
        Some(CoreError::InvalidState { operation: "write closed stream" })
    } else {
        write_error(stream.send, length, view.config.max_send_buffer)
    }
}

/// What writing to a stream does.
pub open spec fn write_done<W: Wire>(
    wire: &W,
    before: ConnectionView,
    stream_id: StreamId,
    data: Seq<u8>,
    fin: bool,
    after: ConnectionView,
    result: Result<usize, CoreError>,
) -> bool {
    let id = stream_id.value;
    let stream = before.streams[id];
    let chunk = greater(before.config.max_datagram_size - 100, 1) as usize;
    match write_refused(before, stream_id, data.len()) {
        Some(problem) => result == Err::<usize, CoreError>(problem) && after == before,
        None => {
            &&& result matches Ok(count) ==> count == data.len()
            &&& sent_on(
                wire,
                ConnectionView {
                    streams: before.streams.insert(
                        id,
                        StreamView { send: written(stream.send, data, fin, chunk), ..stream },
                    ),
                    ..before
                },
                after,
                sending(result),
            )
        },
    }
}

/// What reading from a stream does: the bytes and whether the stream has ended.
pub open spec fn read_done<W: Wire>(
    wire: &W,
    before: ConnectionView,
    stream_id: StreamId,
    max_len: usize,
    after: ConnectionView,
    result: Result<(Seq<u8>, bool), CoreError>,
) -> bool {
    let id = stream_id.value;
    let stream = before.streams[id];
    let read = stream.recv.ready.subrange(
        0,
        lesser(max_len as int, stream.recv.ready.len() as int),
    );
    let shorter = after_read(stream, max_len);
    if !before.streams.contains_key(id) {
        &&& result == Err::<(Seq<u8>, bool), CoreError>((CoreError::UnknownStream { stream_id }))
        &&& after == before
    } else if stream.state is Reset {
        &&& result == Err::<(Seq<u8>, bool), CoreError>(
            (CoreError::StreamReset { stream_id, error_code: stream.state->Reset_error_code }),
        )
        &&& after == before
    } else {
        &&& result matches Ok(given) ==> given == (read, ended(shorter))
        &&& exists|taken: ConnectionView| #[trigger]
            stream_read(before, stream_id, shorter, read.len(), taken) && sent_on(
                wire,
                taken,
                after,
                sending(result),
            )
    }
}

/// What the layout gave when it was asked for the packet in a datagram.
pub open spec fn layout_read<W: Wire>(
    view: ConnectionView,
    bytes: &[u8],
    wire: &W,
    encrypted: Result<bool, ProtocolError>,
    packet: Result<Packet, ProtocolError>,
) -> bool {
    let limit = view.config.max_datagram_size;
    &&& call_ensures(W::is_encrypted, (wire, bytes, limit), encrypted)
    &&& encrypted matches Ok(sealed) ==> if !sealed {
        call_ensures(W::decode, (wire, bytes, limit), packet)
    } else {
        view.crypto_active ==> call_ensures(W::decode_sealed, (wire, bytes, limit), packet)
    }
}

/// What the layout gave when it was asked for the datagram of a packet. Data and
/// the end of a connection are encrypted once the keys are in use.
pub open spec fn layout_written<W: Wire>(
    view: ConnectionView,
    packet: &Packet,
    wire: &W,
    encoded: Result<Vec<u8>, ProtocolError>,
) -> bool {
    let limit = view.config.max_datagram_size;
    if identity_of(view).encrypt_data && (packet.packet_type == PacketType::Data
        || packet.packet_type == PacketType::Close) {
        call_ensures(W::encode_sealed, (wire, packet, limit), encoded)
    } else {
        call_ensures(W::encode, (wire, packet, limit), encoded)
    }
}

/// The packet, as contracts see it, or why there is none.
pub open spec fn packet_view(packet: Result<Packet, ProtocolError>) -> Result<
    PacketView,
    ProtocolError,
> {
    match packet {
        Ok(packet) => Ok(packet@),
        Err(problem) => Err(problem),
    }
}

/// What a datagram does whose layout was read: whether it says that it is
/// encrypted, and the packet in it.
pub open spec fn bytes_done<W: Wire>(
    wire: &W,
    before: ConnectionView,
    encrypted: Result<bool, ProtocolError>,
    packet: Result<PacketView, ProtocolError>,
    after: ConnectionView,
    result: Result<(), CoreError>,
) -> bool {
    match encrypted {
        Err(problem) => after == before && result == Err::<(), CoreError>(
            CoreError::Protocol(problem),
        ),
        Ok(encrypted) => if encrypted && !before.crypto_active {
            after == before && result == Err::<(), CoreError>(
                (CoreError::InvalidState {
                    operation: "receive encrypted packet before handshake completion",
                }),
            )
        } else {
            match packet {
                Err(problem) => after == before && result == Err::<(), CoreError>(
                    CoreError::Protocol(problem),
                ),
                Ok(packet) => packet_done(wire, before, packet, after, result),
            }
        },
    }
}

/// What a packet does.
pub open spec fn packet_done<W: Wire>(
    wire: &W,
    before: ConnectionView,
    packet: PacketView,
    after: ConnectionView,
    result: Result<(), CoreError>,
) -> bool {
    if before.state == ConnectionState::Closed {
        after == before && result == Err::<(), CoreError>(
            (CoreError::InvalidState { operation: "receive on closed connection" }),
        )
    } else if packet.connection_id != before.id {
        after == before && result == Err::<(), CoreError>(CoreError::ConnectionIdMismatch)
    } else {
        datagram_done(wire, before, packet, after, result)
    }
}

/// Only what is not announced differs.
pub proof fn lemma_continues_same(before: ConnectionView, after: ConnectionView)
    requires
        after.role == before.role,
        after.id == before.id,
        after.output == before.output,
    ensures
        continues(before, after),
{
    assert(after.output.subrange(0, before.output.len() as int) =~= before.output);
}

/// A connection that goes on twice goes on.
pub proof fn lemma_continues_on(
    first: ConnectionView,
    before: ConnectionView,
    after: ConnectionView,
)
    requires
        continues(first, before),
        continues(before, after) || (after.role == before.role && after.id == before.id
            && after.output == before.output),
    ensures
        continues(first, after),
{
    if continues(before, after) {
        assert(after.output.subrange(0, first.output.len() as int) =~= first.output) by {
            assert forall|i: int| 0 <= i < first.output.len() implies after.output[i]
                == first.output[i] by {
                assert(after.output.subrange(0, before.output.len() as int)[i] == after.output[i]);
                assert(before.output.subrange(0, first.output.len() as int)[i]
                    == before.output[i]);
            }
        }
    }
}

/// Sending goes on.
pub proof fn lemma_sent_continues<W: Wire>(
    wire: &W,
    before: ConnectionView,
    after: ConnectionView,
    result: Result<(), CoreError>,
)
    requires
        sent_on(wire, before, after, result),
    ensures
        continues(before, after),
{
}

/// An error among the acknowledgements stops them.
pub proof fn lemma_acks_stop<W: Wire>(
    wire: &W,
    before: ConnectionView,
    frames: Seq<FrameView>,
    count: int,
    end: int,
    after: ConnectionView,
    result: Result<(), CoreError>,
)
    requires
        0 <= count <= end,
        result is Err,
        acks_done(wire, before, frames, count, after, result),
    ensures
        acks_done(wire, before, frames, end, after, result),
    decreases end - count,
{
    if count < end {
        let next = count + 1;
        assert(ack_follows(wire, after, result, frames[next - 1], after, result));
        assert(acks_done(wire, before, frames, next, after, result));
        lemma_acks_stop(wire, before, frames, count + 1, end, after, result);
    }
}

/// An error among the frames stops them.
pub proof fn lemma_frames_stop<W: Wire>(
    wire: &W,
    before: ConnectionView,
    packet_type: PacketType,
    frames: Seq<FrameView>,
    count: int,
    end: int,
    after: ConnectionView,
    result: Result<(), CoreError>,
)
    requires
        0 <= count <= end,
        result is Err,
        frames_done(wire, before, packet_type, frames, count, after, result),
    ensures
        frames_done(wire, before, packet_type, frames, end, after, result),
    decreases end - count,
{
    if count < end {
        let next = count + 1;
        assert(frame_follows(
            wire,
            after,
            result,
            packet_type,
            frames[next - 1],
            after,
            result,
        ));
        assert(frames_done(wire, before, packet_type, frames, next, after, result));
        lemma_frames_stop(wire, before, packet_type, frames, count + 1, end, after, result);
    }
}

/// An error among the timers stops them.
pub proof fn lemma_timers_stop<W: Wire>(
    wire: &W,
    before: ConnectionView,
    events: Seq<TimerEvent>,
    count: int,
    end: int,
    after: ConnectionView,
    result: Result<(), CoreError>,
)
    requires
        0 <= count <= end,
        result is Err,
        timers_done(wire, before, events, count, after, result),
    ensures
        timers_done(wire, before, events, end, after, result),
    decreases end - count,
{
    if count < end {
        let next = count + 1;
        assert(timer_follows(wire, after, result, events[next - 1], after, result));
        assert(timers_done(wire, before, events, next, after, result));
        lemma_timers_stop(wire, before, events, count + 1, end, after, result);
    }
}

} // verus!
