//! Errors of a connection.

use vstd::prelude::*;
use vstd::string::*;

use crate::reliable_core::config::ConnectionConfigError;
use crate::time_wheel::TimerError;
use crate::wire::{CryptoError, ProtocolError, StreamId};
use crate::text::{decimal_text, push_decimal};

verus! {

/// Why an operation of a connection fails.
#[allow(inconsistent_fields)]
#[derive(Debug)]
pub enum CoreError {
    InvalidConfig(ConnectionConfigError),
    Protocol(ProtocolError),
    Timer(TimerError),
    ConnectionIdMismatch,
    InvalidState { operation: &'static str },
    InvalidPacketType,
    InvalidStreamId { stream_id: StreamId },
    StreamLimit,
    UnknownStream { stream_id: StreamId },
    StreamReset { stream_id: StreamId, error_code: u32 },
    FlowControlViolation { stream_id: Option<StreamId> },
    ReceiveBufferFull,
    SendBufferFull,
    InvalidOffset,
    AckForUnsentPacket,
    RetransmissionLimit,
    RandomnessUnavailable,
    Crypto(CryptoError),
}

impl CoreError {
    /// The error in words. `detail` puts in words what the layout of packets knows of
    /// it: an error of the layout or of its secrets, or a stream.
    pub open spec fn spec_message(self, detail: Seq<char>) -> Seq<char> {
        match self {
            CoreError::InvalidConfig(error) => "invalid connection configuration: "@ + error.spec_message(),
            CoreError::Protocol(_) => "protocol error: "@ + detail,
            CoreError::Timer(error) => "timer error: "@ + error.spec_message(),
            CoreError::ConnectionIdMismatch => "packet belongs to another connection"@,
            CoreError::InvalidState { operation } => "operation is invalid in current state: "@ + operation@,
            CoreError::InvalidPacketType => "packet type is invalid for current state"@,
            CoreError::InvalidStreamId { .. } => "stream ID has invalid initiator parity: "@ + detail,
            CoreError::StreamLimit => "stream limit has been reached"@,
            CoreError::UnknownStream { .. } => "unknown stream: "@ + detail,
            CoreError::StreamReset { error_code, .. } => "stream "@ + detail + " was reset with error "@ + decimal_text(error_code as nat),
            CoreError::FlowControlViolation { stream_id: Some(_) } => "stream "@ + detail + " exceeded its receive window"@,
            CoreError::FlowControlViolation { stream_id: None } => "connection exceeded its receive window"@,
            CoreError::ReceiveBufferFull => "receive buffer is full"@,
            CoreError::SendBufferFull => "send buffer is full"@,
            CoreError::InvalidOffset => "stream offset overflowed"@,
            CoreError::AckForUnsentPacket => "acknowledgement refers to an unsent packet"@,
            CoreError::RetransmissionLimit => "retransmission limit was reached"@,
            CoreError::RandomnessUnavailable => "secure randomness is unavailable"@,
            CoreError::Crypto(_) => "cryptographic error: "@ + detail,
        }
    }

    /// The error in words. `detail` puts in words what the layout of packets knows of
    /// it: an error of the layout or of its secrets, or a stream.
    pub fn message(&self, detail: &str) -> (message: String)
        ensures
            message@ == self.spec_message(detail@),
    {
        match self {
            CoreError::InvalidConfig(error) => {
                let mut text: String = "invalid connection configuration: ".to_owned();
                text.append(error.message().as_str());
                text
            },
            CoreError::Protocol(_) => {
                let mut text: String = "protocol error: ".to_owned();
                text.append(detail);
                text
            },
            CoreError::Timer(error) => {
                let mut text: String = "timer error: ".to_owned();
                text.append(error.message().as_str());
                text
            },
            CoreError::ConnectionIdMismatch => "packet belongs to another connection".to_owned(),
            CoreError::InvalidState { operation } => {
                let mut text: String = "operation is invalid in current state: ".to_owned();
                text.append(operation);
                text
            },
            CoreError::InvalidPacketType => "packet type is invalid for current state".to_owned(),
            CoreError::InvalidStreamId { .. } => {
                let mut text: String = "stream ID has invalid initiator parity: ".to_owned();
                text.append(detail);
                text
            },
            CoreError::StreamLimit => "stream limit has been reached".to_owned(),
            CoreError::UnknownStream { .. } => {
                let mut text: String = "unknown stream: ".to_owned();
                text.append(detail);
                text
            },
            CoreError::StreamReset { error_code, .. } => {
                let mut text: String = "stream ".to_owned();
                text.append(detail);
                text.append(" was reset with error ");
                push_decimal(&mut text, *error_code as u64);
                text
            },
            CoreError::FlowControlViolation { stream_id: Some(_) } => {
                let mut text: String = "stream ".to_owned();
                text.append(detail);
                text.append(" exceeded its receive window");
                text
            },
            CoreError::FlowControlViolation { stream_id: None } => "connection exceeded its receive window".to_owned(),
            CoreError::ReceiveBufferFull => "receive buffer is full".to_owned(),
            CoreError::SendBufferFull => "send buffer is full".to_owned(),
            CoreError::InvalidOffset => "stream offset overflowed".to_owned(),
            CoreError::AckForUnsentPacket => "acknowledgement refers to an unsent packet".to_owned(),
            CoreError::RetransmissionLimit => "retransmission limit was reached".to_owned(),
            CoreError::RandomnessUnavailable => "secure randomness is unavailable".to_owned(),
            CoreError::Crypto(_) => {
                let mut text: String = "cryptographic error: ".to_owned();
                text.append(detail);
                text
            },
        }
    }
}

} // verus!
