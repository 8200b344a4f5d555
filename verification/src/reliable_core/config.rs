//! Settings of a connection.

use vstd::prelude::*;
use vstd::string::*;

use crate::bytes::copy_bytes;
use crate::duration::Duration;
use crate::time_wheel::config::config_error;
use crate::time_wheel::{ConfigError, WheelConfig};
use crate::wire::WireLimits;

verus! {

/// Which side of the connection this is.
#[derive(Debug, Clone, Copy, PartialEq, Eq, Structural)]
pub enum ConnectionRole {
    Client,
    Server,
}

impl ConnectionRole {
    /// Parity of the numbers of the streams that this side opens.
    pub open spec fn parity(self) -> u64 {
        match self {
            ConnectionRole::Client => 0,
            ConnectionRole::Server => 1,
        }
    }

    /// Parity of the numbers of the streams that this side opens.
    pub fn local_stream_parity(self) -> (parity: u64)
        ensures
            parity == self.parity(),
    {
        match self {
            ConnectionRole::Client => 0,
            ConnectionRole::Server => 1,
        }
    }

    /// Parity of the numbers of the streams that the other side opens.
    pub fn peer_stream_parity(self) -> (parity: u64)
        ensures
            parity == 1 - self.parity(),
    {
        1 - self.local_stream_parity()
    }
}

/// Settings of a connection.
#[derive(Debug, Clone, PartialEq, Eq)]
pub struct ConnectionConfig {
    pub max_datagram_size: usize,
    pub max_streams: u32,
    pub initial_connection_window: u64,
    pub initial_stream_window: u64,
    pub max_send_buffer: usize,
    pub max_receive_buffer: usize,
    pub initial_congestion_window: u64,
    pub min_congestion_window: u64,
    pub max_congestion_window: u64,
    pub initial_rto: Duration,
    pub min_rto: Duration,
    pub max_rto: Duration,
    pub clock_granularity: Duration,
    pub ack_delay: Duration,
    pub idle_timeout: Duration,
    pub keepalive_interval: Option<Duration>,
    pub handshake_timeout: Duration,
    pub close_timeout: Duration,
    pub max_retransmissions: u32,
    pub fast_loss_threshold: u64,
    pub handshake_cookie: Vec<u8>,
    /// Numbers that the layout of packets fixes.
    pub limits: WireLimits,
}

/// Why settings are refused.
#[derive(Debug, Clone, Copy, PartialEq, Eq, Structural)]
pub enum ConnectionConfigError {
    DatagramSizeTooSmall,
    DatagramSizeTooLarge,
    ZeroMaxStreams,
    ZeroWindow,
    ZeroBuffer,
    InvalidCongestionWindow,
    InvalidTimeout,
    InvalidKeepalive,
    Wheel(ConfigError),
}

/// The first thing that is wrong with the settings.
pub open spec fn connection_config_error(
    config: ConnectionConfig,
) -> Option<ConnectionConfigError> {
    if config.max_datagram_size < config.limits.fixed_header_len {
        Some(ConnectionConfigError::DatagramSizeTooSmall)
    } else if config.max_datagram_size > u16::MAX {
        Some(ConnectionConfigError::DatagramSizeTooLarge)
    } else if config.max_streams == 0 {
        Some(ConnectionConfigError::ZeroMaxStreams)
    } else if config.initial_connection_window == 0 || config.initial_stream_window == 0 {
        Some(ConnectionConfigError::ZeroWindow)
    } else if config.max_send_buffer == 0 || config.max_receive_buffer == 0 {
        Some(ConnectionConfigError::ZeroBuffer)
    } else if !(0 < config.min_congestion_window <= config.initial_congestion_window
        <= config.max_congestion_window) {
        Some(ConnectionConfigError::InvalidCongestionWindow)
    } else if !(0 < config.min_rto@ <= config.initial_rto@ <= config.max_rto@)
        || config.clock_granularity@ == 0 {
        Some(ConnectionConfigError::InvalidTimeout)
    } else if config.ack_delay@ > config.max_rto@ || config.idle_timeout@ == 0
        || config.handshake_timeout@ == 0 || config.close_timeout@ == 0
        || config.fast_loss_threshold == 0 || config.handshake_cookie@.len()
        > config.limits.max_cookie_len {
        Some(ConnectionConfigError::InvalidTimeout)
    } else if config.keepalive_interval matches Some(interval) && (interval@ == 0 || interval@
        >= config.idle_timeout@) {
        Some(ConnectionConfigError::InvalidKeepalive)
    } else {
        None
    }
}

/// Slots of the levels of the wheel of a connection.
pub open spec fn connection_wheel_slots() -> Seq<usize> {
    seq![512, 64, 64]
}

impl ConnectionConfig {
    /// The default settings, for a datagram of at most `max_datagram_size` bytes.
    pub fn new(max_datagram_size: usize, limits: WireLimits) -> (config: Self)
        ensures
            config.max_datagram_size == max_datagram_size,
            config.limits == limits,
            config.max_streams == 64,
            config.initial_connection_window == 4 * 1024 * 1024,
            config.initial_stream_window == 1024 * 1024,
            config.max_send_buffer == 4 * 1024 * 1024,
            config.max_receive_buffer == 4 * 1024 * 1024,
            config.initial_congestion_window == 10 * 1200,
            config.min_congestion_window == 1200,
            config.max_congestion_window == 16 * 1024 * 1024,
            config.initial_rto@ == 1_000_000_000,
            config.min_rto@ == 200_000_000,
            config.max_rto@ == 60_000_000_000,
            config.clock_granularity@ == 10_000_000,
            config.ack_delay@ == 25_000_000,
            config.idle_timeout@ == 30_000_000_000,
            config.keepalive_interval matches Some(interval) && interval@ == 10_000_000_000,
            config.handshake_timeout@ == 5_000_000_000,
            config.close_timeout@ == 1_000_000_000,
            config.max_retransmissions == 8,
            config.fast_loss_threshold == 3,
            config.handshake_cookie@.len() == 0,
    {
        ConnectionConfig {
            max_datagram_size,
            max_streams: 64,
            initial_connection_window: 4 * 1024 * 1024,
            initial_stream_window: 1024 * 1024,
            max_send_buffer: 4 * 1024 * 1024,
            max_receive_buffer: 4 * 1024 * 1024,
            initial_congestion_window: 10 * 1200,
            min_congestion_window: 1200,
            max_congestion_window: 16 * 1024 * 1024,
            initial_rto: Duration::from_secs(1),
            min_rto: Duration::from_millis(200),
            max_rto: Duration::from_secs(60),
            clock_granularity: Duration::from_millis(10),
            ack_delay: Duration::from_millis(25),
            idle_timeout: Duration::from_secs(30),
            keepalive_interval: Some(Duration::from_secs(10)),
            handshake_timeout: Duration::from_secs(5),
            close_timeout: Duration::from_secs(1),
            max_retransmissions: 8,
            fast_loss_threshold: 3,
            handshake_cookie: Vec::new(),
            limits,
        }
    }

    /// Whether two settings are the same but for the identity of the cookie.
    pub open spec fn same_as(&self, other: &Self) -> bool {
        &&& *self == (ConnectionConfig { handshake_cookie: self.handshake_cookie, ..*other })
        &&& self.handshake_cookie@ == other.handshake_cookie@
    }

    /// A copy of the settings.
    pub fn copy(&self) -> (config: Self)
        ensures
            config.same_as(self),
    {
        ConnectionConfig {
            max_datagram_size: self.max_datagram_size,
            max_streams: self.max_streams,
            initial_connection_window: self.initial_connection_window,
            initial_stream_window: self.initial_stream_window,
            max_send_buffer: self.max_send_buffer,
            max_receive_buffer: self.max_receive_buffer,
            initial_congestion_window: self.initial_congestion_window,
            min_congestion_window: self.min_congestion_window,
            max_congestion_window: self.max_congestion_window,
            initial_rto: self.initial_rto,
            min_rto: self.min_rto,
            max_rto: self.max_rto,
            clock_granularity: self.clock_granularity,
            ack_delay: self.ack_delay,
            idle_timeout: self.idle_timeout,
            keepalive_interval: self.keepalive_interval,
            handshake_timeout: self.handshake_timeout,
            close_timeout: self.close_timeout,
            max_retransmissions: self.max_retransmissions,
            fast_loss_threshold: self.fast_loss_threshold,
            handshake_cookie: copy_bytes(&self.handshake_cookie),
            limits: self.limits,
        }
    }

    /// Checks the settings.
    pub fn validate(&self) -> (result: Result<(), ConnectionConfigError>)
        ensures
            result is Ok <==> connection_config_error(*self) is None,
            result matches Err(error) ==> connection_config_error(*self) == Some(error),
    {
        if self.max_datagram_size < self.limits.fixed_header_len {
            return Err(ConnectionConfigError::DatagramSizeTooSmall);
        }
        if self.max_datagram_size > u16::MAX as usize {
            return Err(ConnectionConfigError::DatagramSizeTooLarge);
        }
        if self.max_streams == 0 {
            return Err(ConnectionConfigError::ZeroMaxStreams);
        }
        if self.initial_connection_window == 0 || self.initial_stream_window == 0 {
            return Err(ConnectionConfigError::ZeroWindow);
        }
        if self.max_send_buffer == 0 || self.max_receive_buffer == 0 {
            return Err(ConnectionConfigError::ZeroBuffer);
        }
        if self.min_congestion_window == 0 || self.initial_congestion_window
            < self.min_congestion_window || self.max_congestion_window
            < self.initial_congestion_window {
            return Err(ConnectionConfigError::InvalidCongestionWindow);
        }
        if self.initial_rto.is_zero() || self.min_rto.is_zero() || self.max_rto.as_nanos()
            < self.min_rto.as_nanos() || self.initial_rto.as_nanos() < self.min_rto.as_nanos()
            || self.initial_rto.as_nanos() > self.max_rto.as_nanos()
            || self.clock_granularity.is_zero() {
            return Err(ConnectionConfigError::InvalidTimeout);
        }
        if self.ack_delay.as_nanos() > self.max_rto.as_nanos() || self.idle_timeout.is_zero()
            || self.handshake_timeout.is_zero() || self.close_timeout.is_zero()
            || self.fast_loss_threshold == 0 || self.handshake_cookie.len()
            > self.limits.max_cookie_len {
            return Err(ConnectionConfigError::InvalidTimeout);
        }
        match self.keepalive_interval {
            Some(interval) => {
                if interval.is_zero() || interval.as_nanos() >= self.idle_timeout.as_nanos() {
                    return Err(ConnectionConfigError::InvalidKeepalive);
                }
            },
            None => {},
        }
        Ok(())
    }

    /// The shape of the wheel that keeps the timers of the connection.
    pub fn wheel_config(&self) -> (result: Result<WheelConfig, ConnectionConfigError>)
        ensures
            ({
                let error = config_error(self.clock_granularity@, connection_wheel_slots());
                match result {
                    Ok(config) => {
                        &&& error is None
                        &&& config.tick_nanos() == self.clock_granularity@
                        &&& config.slot_counts() == connection_wheel_slots()
                    },
                    Err(failure) => error is Some && failure == ConnectionConfigError::Wheel(
                        error->0,
                    ),
                }
            }),
    {
        let builder = WheelConfig::builder().base_tick(self.clock_granularity).level_slots(
            512,
        ).level_slots(64).level_slots(64);
        assert(builder.slots() =~= connection_wheel_slots());
        match builder.build() {
            Ok(config) => Ok(config),
            Err(error) => Err(ConnectionConfigError::Wheel(error)),
        }
    }
}

impl ConnectionConfigError {
    /// The error in words.
    pub open spec fn spec_message(self) -> Seq<char> {
        match self {
            ConnectionConfigError::DatagramSizeTooSmall => "maximum datagram size is too small"@,
            ConnectionConfigError::DatagramSizeTooLarge => "maximum datagram size is too large"@,
            ConnectionConfigError::ZeroMaxStreams => "maximum stream count must be greater than zero"@,
            ConnectionConfigError::ZeroWindow => "flow-control windows must be greater than zero"@,
            ConnectionConfigError::ZeroBuffer => "stream buffers must be greater than zero"@,
            ConnectionConfigError::InvalidCongestionWindow => "congestion-window bounds are invalid"@,
            ConnectionConfigError::InvalidTimeout => "timeout configuration is invalid"@,
            ConnectionConfigError::InvalidKeepalive => "keepalive interval is invalid"@,
            ConnectionConfigError::Wheel(error) => "invalid timer-wheel configuration: "@ + error.spec_message(),
        }
    }

    /// The error in words.
    pub fn message(self) -> (message: String)
        ensures
            message@ == self.spec_message(),
    {
        match self {
            ConnectionConfigError::DatagramSizeTooSmall => "maximum datagram size is too small".to_owned(),
            ConnectionConfigError::DatagramSizeTooLarge => "maximum datagram size is too large".to_owned(),
            ConnectionConfigError::ZeroMaxStreams => "maximum stream count must be greater than zero".to_owned(),
            ConnectionConfigError::ZeroWindow => "flow-control windows must be greater than zero".to_owned(),
            ConnectionConfigError::ZeroBuffer => "stream buffers must be greater than zero".to_owned(),
            ConnectionConfigError::InvalidCongestionWindow => "congestion-window bounds are invalid".to_owned(),
            ConnectionConfigError::InvalidTimeout => "timeout configuration is invalid".to_owned(),
            ConnectionConfigError::InvalidKeepalive => "keepalive interval is invalid".to_owned(),
            ConnectionConfigError::Wheel(error) => {
                let mut text: String = "invalid timer-wheel configuration: ".to_owned();
                text.append(error.message().as_str());
                text
            },
        }
    }
}

} // verus!
