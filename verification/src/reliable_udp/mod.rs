//! Connections over UDP sockets: which datagrams and requests lead to what.

pub mod action;
pub mod endpoint;
pub mod endpoint_laws;
pub mod event_loop;
pub mod error;
pub mod laws;
pub mod path;
pub mod retry;
pub mod runtime;
pub mod runtime_laws;
pub mod stream;

pub use action::{Action, Reply};
pub use endpoint::EndpointConfig;
pub use event_loop::{retry_packet, Command, ConnectStep, EventLoop};
pub use error::{retry_failure, ConnectError, EndpointError, StreamError};
pub use retry::{
    issue_cookie, validate_cookie, CookieContext, RetryConfig, RetryError, COOKIE_LEN,
    COOKIE_VERSION,
};
pub use path::PathBinding;
pub use stream::{FlushStep, ReadStep, ReliableStream, ShutdownStep, WriteStep};
