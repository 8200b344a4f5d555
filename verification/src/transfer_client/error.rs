//! Why a transfer fails.

use vstd::prelude::*;
use vstd::string::*;

use crate::network_probe::ProbeError;
use crate::reliable_udp::{ConnectError, EndpointError, StreamError};
use crate::text::{decimal_text, push_decimal};

verus! {

/// What is wrong with data or with a request for data.
#[derive(Debug, Clone, Copy, PartialEq, Eq, Structural)]
pub enum IoKind {
    InvalidData,
    InvalidInput,
    UnexpectedEof,
}

/// Why a transfer fails.
#[allow(inconsistent_fields)]
#[derive(Debug)]
pub enum ClientError {
    InvalidConfig(&'static str),
    Endpoint(EndpointError),
    Connect(ConnectError),
    Stream(StreamError),
    Probe(ProbeError),
    Io { kind: IoKind, message: &'static str },
    RandomnessUnavailable,
    ResumeTicketExpired,
    DirectPathUnavailable,
    Server { code: u32, message: String },
    InvalidState(&'static str),
    Cancelled,
    Closed,
}

impl ClientError {
    /// The error in words. `detail` puts in words what the layout of packets knows of
    /// it: an error of the layout or of its secrets, or a stream.
    pub open spec fn spec_message(self, detail: Seq<char>) -> Seq<char> {
        match self {
            ClientError::InvalidConfig(field) => "invalid client configuration: "@ + field@,
            ClientError::Endpoint(error) => "client endpoint error: "@ + error.spec_message(detail),
            ClientError::Connect(error) => "client connection error: "@ + error.spec_message(detail),
            ClientError::Stream(error) => "client stream error: "@ + error.spec_message(detail),
            ClientError::Probe(error) => "network probe error: "@ + error.spec_message(),
            ClientError::Io { message, .. } => "client I/O error: "@ + message@,
            ClientError::RandomnessUnavailable => "secure randomness is unavailable"@,
            ClientError::ResumeTicketExpired => "resume ticket has expired"@,
            ClientError::DirectPathUnavailable => "direct network path is unavailable"@,
            ClientError::Server { code, message } => "server error "@ + decimal_text(code as nat) + ": "@ + message@,
            ClientError::InvalidState(operation) => "invalid client state: "@ + operation@,
            ClientError::Cancelled => "transfer was cancelled"@,
            ClientError::Closed => "server connection was closed"@,
        }
    }

    /// The error in words. `detail` puts in words what the layout of packets knows of
    /// it: an error of the layout or of its secrets, or a stream.
    pub fn message(&self, detail: &str) -> (message: String)
        ensures
            message@ == self.spec_message(detail@),
    {
        match self {
            ClientError::InvalidConfig(field) => {
                let mut text: String = "invalid client configuration: ".to_owned();
                text.append(field);
                text
            },
            ClientError::Endpoint(error) => {
                let mut text: String = "client endpoint error: ".to_owned();
                text.append(error.message(detail).as_str());
                text
            },
            ClientError::Connect(error) => {
                let mut text: String = "client connection error: ".to_owned();
                text.append(error.message(detail).as_str());
                text
            },
            ClientError::Stream(error) => {
                let mut text: String = "client stream error: ".to_owned();
                text.append(error.message(detail).as_str());
                text
            },
            ClientError::Probe(error) => {
                let mut text: String = "network probe error: ".to_owned();
                text.append(error.message().as_str());
                text
            },
            ClientError::Io { message, .. } => {
                let mut text: String = "client I/O error: ".to_owned();
                text.append(message);
                text
            },
            ClientError::RandomnessUnavailable => "secure randomness is unavailable".to_owned(),
            ClientError::ResumeTicketExpired => "resume ticket has expired".to_owned(),
            ClientError::DirectPathUnavailable => "direct network path is unavailable".to_owned(),
            ClientError::Server { code, message } => {
                let mut text: String = "server error ".to_owned();
                push_decimal(&mut text, *code as u64);
                text.append(": ");
                text.append(message.as_str());
                text
            },
            ClientError::InvalidState(operation) => {
                let mut text: String = "invalid client state: ".to_owned();
                text.append(operation);
                text
            },
            ClientError::Cancelled => "transfer was cancelled".to_owned(),
            ClientError::Closed => "server connection was closed".to_owned(),
        }
    }
}

} // verus!
