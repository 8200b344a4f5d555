//! The protocol engine of one connection: it takes packets and elapsed time and
//! gives packets and events, and does no input or output of its own.

pub mod ack;
pub mod config;
pub mod congestion;
pub mod connection;
pub mod connection_laws;
pub mod delivery_laws;
pub mod error;
pub mod event;
pub mod flow_control;
pub mod flush_laws;
pub mod frame_laws;
pub mod handshake;
pub mod handshake_laws;
pub mod laws;
pub mod layout;
pub mod pacing_laws;
pub mod packet_laws;
pub mod receive;
pub mod recovery;
pub mod recovery_laws;
pub mod rtt;
pub mod send;
pub mod sending;
pub mod sending_laws;
pub mod stream;
pub mod streams;
pub mod timer;
pub mod timer_laws;
pub mod timers;
pub mod transition;
pub mod transport;

pub use ack::ReceivedPackets;
pub use config::{ConnectionConfig, ConnectionConfigError, ConnectionRole};
pub use congestion::{greater, lesser, CongestionController};
pub use connection::{Connection, ReadResult};
pub use error::CoreError;
pub use event::{ConnectionState, CoreEvent, CoreOutput};
pub use flow_control::{ReceiveFlowControl, SendFlowControl};
pub use handshake::{HandshakeState, HandshakeTimeout};
pub use receive::ReceiveStream;
pub use rtt::RttEstimator;
pub use send::{PendingData, QueuedFrame, SendStream};
pub use stream::{StreamInfo, StreamState};
pub use streams::{StreamDataStatus, StreamManager, StreamRead};
pub use timer::TimerEvent;
pub use timers::TimerState;
pub use transport::{Candidate, FlushIdentity, TransportState};
