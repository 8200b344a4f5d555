//! Errors of endpoints, of connecting and of streams.

use vstd::prelude::*;
use vstd::string::*;

use crate::reliable_core::{ConnectionConfigError, CoreError};
use crate::reliable_udp::retry::RetryError;
use crate::wire::ProtocolError;
use crate::text::{decimal_text, push_decimal};

verus! {

/// Why an endpoint fails.
#[derive(Debug)]
pub enum EndpointError {
    /// The socket fails, for this reason.
    Io(String),
    InvalidConfig(ConnectionConfigError),
    Protocol(ProtocolError),
    Core(CoreError),
    Closed,
    InvalidCapacity { field: &'static str },
    ConnectionLimit,
    AcceptQueueFull,
    CommandChannelClosed,
    InvalidRetryConfig,
    RandomnessUnavailable,
}

/// The error of an endpoint whose cookies cannot be used.
pub open spec fn spec_retry_failure(error: RetryError) -> EndpointError {
    match error {
        RetryError::InvalidConfig => EndpointError::InvalidRetryConfig,
        RetryError::RandomnessUnavailable => EndpointError::RandomnessUnavailable,
    }
}

/// The error of an endpoint whose cookies cannot be used.
pub fn retry_failure(error: RetryError) -> (failure: EndpointError)
    ensures
        failure == spec_retry_failure(error),
{
    match error {
        RetryError::InvalidConfig => EndpointError::InvalidRetryConfig,
        RetryError::RandomnessUnavailable => EndpointError::RandomnessUnavailable,
    }
}

/// Why a connection cannot be made or ended.
#[derive(Debug)]
pub enum ConnectError {
    Endpoint(EndpointError),
    Core(CoreError),
    ConnectionClosed { error_code: u32 },
    CommandChannelClosed,
}

/// Why an operation on a stream fails.
#[derive(Debug)]
pub enum StreamError {
    Core(CoreError),
    ConnectionClosed { error_code: u32 },
    CommandChannelClosed,
    ResponseChannelClosed,
    InvalidState(&'static str),
}

impl EndpointError {
    /// The error in words. `detail` puts in words what the layout of packets knows of
    /// it: an error of the layout or of its secrets, or a stream.
    pub open spec fn spec_message(self, detail: Seq<char>) -> Seq<char> {
        match self {
            EndpointError::Io(error) => "UDP socket error: "@ + error@,
            EndpointError::InvalidConfig(error) => "invalid endpoint configuration: "@ + error.spec_message(),
            EndpointError::Protocol(_) => "protocol error: "@ + detail,
            EndpointError::Core(error) => "transport state error: "@ + error.spec_message(detail),
            EndpointError::Closed => "endpoint is closed"@,
            EndpointError::InvalidCapacity { field } => "endpoint capacity must be greater than zero: "@ + field@,
            EndpointError::ConnectionLimit => "endpoint connection limit reached"@,
            EndpointError::AcceptQueueFull => "endpoint accept queue is full"@,
            EndpointError::CommandChannelClosed => "endpoint task is no longer running"@,
            EndpointError::InvalidRetryConfig => "retry cookie configuration is invalid"@,
            EndpointError::RandomnessUnavailable => "secure randomness is unavailable"@,
        }
    }

    /// The error in words. `detail` puts in words what the layout of packets knows of
    /// it: an error of the layout or of its secrets, or a stream.
    pub fn message(&self, detail: &str) -> (message: String)
        ensures
            message@ == self.spec_message(detail@),
    {
        match self {
            EndpointError::Io(error) => {
                let mut text: String = "UDP socket error: ".to_owned();
                text.append(error.as_str());
                text
            },
            EndpointError::InvalidConfig(error) => {
                let mut text: String = "invalid endpoint configuration: ".to_owned();
                text.append(error.message().as_str());
                text
            },
            EndpointError::Protocol(_) => {
                let mut text: String = "protocol error: ".to_owned();
                text.append(detail);
                text
            },
            EndpointError::Core(error) => {
                let mut text: String = "transport state error: ".to_owned();
                text.append(error.message(detail).as_str());
                text
            },
            EndpointError::Closed => "endpoint is closed".to_owned(),
            EndpointError::InvalidCapacity { field } => {
                let mut text: String = "endpoint capacity must be greater than zero: ".to_owned();
                text.append(field);
                text
            },
            EndpointError::ConnectionLimit => "endpoint connection limit reached".to_owned(),
            EndpointError::AcceptQueueFull => "endpoint accept queue is full".to_owned(),
            EndpointError::CommandChannelClosed => "endpoint task is no longer running".to_owned(),
            EndpointError::InvalidRetryConfig => "retry cookie configuration is invalid".to_owned(),
            EndpointError::RandomnessUnavailable => "secure randomness is unavailable".to_owned(),
        }
    }
}

impl ConnectError {
    /// The error in words. `detail` puts in words what the layout of packets knows of
    /// it: an error of the layout or of its secrets, or a stream.
    pub open spec fn spec_message(self, detail: Seq<char>) -> Seq<char> {
        match self {
            ConnectError::Endpoint(error) => error.spec_message(detail),
            ConnectError::Core(error) => "transport state error: "@ + error.spec_message(detail),
            ConnectError::ConnectionClosed { error_code } => "connection closed with error code "@ + decimal_text(error_code as nat),
            ConnectError::CommandChannelClosed => "endpoint task is no longer running"@,
        }
    }

    /// The error in words. `detail` puts in words what the layout of packets knows of
    /// it: an error of the layout or of its secrets, or a stream.
    pub fn message(&self, detail: &str) -> (message: String)
        ensures
            message@ == self.spec_message(detail@),
    {
        match self {
            ConnectError::Endpoint(error) => error.message(detail),
            ConnectError::Core(error) => {
                let mut text: String = "transport state error: ".to_owned();
                text.append(error.message(detail).as_str());
                text
            },
            ConnectError::ConnectionClosed { error_code } => {
                let mut text: String = "connection closed with error code ".to_owned();
                push_decimal(&mut text, *error_code as u64);
                text
            },
            ConnectError::CommandChannelClosed => "endpoint task is no longer running".to_owned(),
        }
    }
}

impl StreamError {
    /// The error in words. `detail` puts in words what the layout of packets knows of
    /// it: an error of the layout or of its secrets, or a stream.
    pub open spec fn spec_message(self, detail: Seq<char>) -> Seq<char> {
        match self {
            StreamError::Core(error) => "stream state error: "@ + error.spec_message(detail),
            StreamError::ConnectionClosed { error_code } => "connection closed with error code "@ + decimal_text(error_code as nat),
            StreamError::CommandChannelClosed => "endpoint task is no longer running"@,
            StreamError::ResponseChannelClosed => "endpoint response channel was closed"@,
            StreamError::InvalidState(operation) => "invalid stream state: "@ + operation@,
        }
    }

    /// The error in words. `detail` puts in words what the layout of packets knows of
    /// it: an error of the layout or of its secrets, or a stream.
    pub fn message(&self, detail: &str) -> (message: String)
        ensures
            message@ == self.spec_message(detail@),
    {
        match self {
            StreamError::Core(error) => {
                let mut text: String = "stream state error: ".to_owned();
                text.append(error.message(detail).as_str());
                text
            },
            StreamError::ConnectionClosed { error_code } => {
                let mut text: String = "connection closed with error code ".to_owned();
                push_decimal(&mut text, *error_code as u64);
                text
            },
            StreamError::CommandChannelClosed => "endpoint task is no longer running".to_owned(),
            StreamError::ResponseChannelClosed => "endpoint response channel was closed".to_owned(),
            StreamError::InvalidState(operation) => {
                let mut text: String = "invalid stream state: ".to_owned();
                text.append(operation);
                text
            },
        }
    }
}

} // verus!
