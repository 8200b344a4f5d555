//! Transfers of files between two sides that a server brings together.

pub mod accepter;
pub mod config;
pub mod error;
pub mod frame;
pub mod laws;
pub mod manifest;
pub mod messages;
pub mod offerer;
pub mod pairing;
pub mod request_laws;
pub mod requests;
pub mod resume;
pub mod resuming;
pub mod sessions;
pub mod sources;
pub mod ticket_format;
pub mod ticket_laws;
pub mod ticket_reader;

pub use accepter::{
    Accepter, AccepterAction, AccepterPhase, Checkpoint, DataChunk, FileReceiveInfo, FileReceiver,
};
pub use config::{ClientConfig, OverwritePolicy, PairingOptions, ReceiveOptions, RejectReason};
pub use error::{ClientError, IoKind};
pub use frame::DataFrame;
pub use manifest::{Digest, FileId, FileMetadata, HashAlgorithm, Manifest, ManifestEntry};
pub use messages::{
    ControlMessage, ServerMessage, SessionEvent, Totals, TransferEvent, TransferSummary,
};
pub use offerer::{Chunk, FileSendInfo, FileSender, Offerer, OffererAction};
pub use pairing::{IncomingOffer, Join, JoinStep, PairingOffer};
pub use requests::Request;
pub use resume::{PairingId, ResumeTicket};
pub use resuming::{Resume, ResumeSend, ResumeStep};
pub use sessions::{
    cleanup_resume_session, list_resume_sessions, ResumeSession, SessionDirectories,
};
pub use sources::{SourceFiles, SourceKind};
pub use ticket_format::{RoleCodes, TicketError, TicketLimits, TransferRole};
