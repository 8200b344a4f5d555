//! What the server and the other side say, as far as decisions hang on it.

use vstd::prelude::*;
use vstd::string::*;

use crate::ids::TransferId;
use crate::network_probe::PathKind;
use crate::transfer_client::error::ClientError;
use crate::transfer_client::manifest::{Digest, FileId};
use crate::transfer_client::resume::PairingId;
use crate::transfer_client::ticket_format::TransferRole;

verus! {

/// A message about the course of a transfer.
#[derive(Debug, Clone, PartialEq, Eq)]
pub enum ControlMessage {
    TransferError { code: u32, message: String },
    FileBegin { file_id: FileId, data_stream_id: u64, base_offset: u64, remaining_size: u64 },
    ManifestEnd,
    ResumeQuery { file_id: FileId, content_hash: Digest, size: u64 },
    Other,
}

/// A message.
#[derive(Debug, Clone, PartialEq, Eq)]
pub enum ServerMessage {
    PairingCreated { pairing_id: PairingId, expires_at: u64 },
    PairingJoined { pairing_id: PairingId },
    OfferReady {
        transfer_id: TransferId,
        manifest_digest: Digest,
        file_count: u64,
        total_size: u64,
        sender_display_name: String,
    },
    ResumeTicket {
        pairing_id: PairingId,
        transfer_id: TransferId,
        role: TransferRole,
        manifest_digest: Digest,
        expires_at: u64,
        resume_ticket: Vec<u8>,
    },
    ResumeAccepted {
        pairing_id: PairingId,
        transfer_id: TransferId,
        role: TransferRole,
        manifest_digest: Digest,
    },
    PeerReconnected { transfer_id: TransferId },
    RelayOpen { transfer_id: TransferId },
    AcceptOffer { transfer_id: TransferId, accepted: bool },
    Cancel { transfer_id: TransferId },
    /// Another message about a pairing.
    Pairing,
    Transfer(ControlMessage),
    /// A message about a path.
    Path,
}

/// The error of what the server says instead of what was asked for.
pub open spec fn spec_transfer_error(control: ControlMessage) -> ClientError {
    match control {
        ControlMessage::TransferError { code, message } => ClientError::Server { code, message },
        _ => ClientError::InvalidState("unexpected server response"),
    }
}

/// The error of what the server says instead of what was asked for.
pub fn transfer_error(control: ControlMessage) -> (error: ClientError)
    ensures
        error == spec_transfer_error(control),
{
    match control {
        ControlMessage::TransferError { code, message } => ClientError::Server { code, message },
        _ => ClientError::InvalidState("unexpected server response"),
    }
}

/// How much there is to transfer.
#[derive(Debug, Clone, Copy, PartialEq, Eq, Structural)]
pub struct Totals {
    pub file_count: u64,
    pub total_size: u64,
}

/// What came of a transfer.
#[derive(Debug, Clone, Copy, PartialEq, Eq, Structural)]
pub struct TransferSummary {
    pub transfer_id: TransferId,
    pub completed_files: u64,
    pub total_size: u64,
    pub path_kind: PathKind,
    pub relay_used: bool,
}

/// What came of a transfer that is complete.
pub open spec fn spec_summary(transfer_id: TransferId, totals: Totals) -> TransferSummary {
    TransferSummary {
        transfer_id,
        completed_files: totals.file_count,
        total_size: totals.total_size,
        path_kind: PathKind::Relay,
        relay_used: true,
    }
}

/// What came of a transfer that is complete.
pub fn summary(transfer_id: TransferId, totals: Totals) -> (summary: TransferSummary)
    ensures
        summary == spec_summary(transfer_id, totals),
{
    TransferSummary {
        transfer_id,
        completed_files: totals.file_count,
        total_size: totals.total_size,
        path_kind: PathKind::Relay,
        relay_used: true,
    }
}

/// What happens in the course of a transfer. States are given by their names.
#[derive(Debug, Clone, PartialEq, Eq)]
pub enum SessionEvent {
    StateChanged { from: String, to: String },
    Checkpointed { file_id: FileId, durable_offset: u64 },
    PathSelected { kind: PathKind },
    PathFallback,
    Other,
}

/// What others are told of the course of a transfer.
#[derive(Debug, Clone, PartialEq, Eq)]
pub enum TransferEvent {
    StateChanged { from: String, to: String },
    FileProgress { file_id: FileId, durable_offset: u64, total_size: u64 },
    PathSelected { kind: PathKind },
    PathFallback,
    Completed(TransferSummary),
    Failed(String),
}

/// What others are told of an event, if anything.
pub open spec fn told_of(event: SessionEvent) -> Option<TransferEvent> {
    match event {
        SessionEvent::StateChanged { from, to } => Some(TransferEvent::StateChanged { from, to }),
        SessionEvent::Checkpointed { file_id, durable_offset } => Some(
            TransferEvent::FileProgress { file_id, durable_offset, total_size: 0 },
        ),
        SessionEvent::PathSelected { kind } => Some(TransferEvent::PathSelected { kind }),
        SessionEvent::PathFallback => Some(TransferEvent::PathFallback),
        SessionEvent::Other => None,
    }
}

/// What others are told of an event, if anything.
pub fn publish_event(event: SessionEvent) -> (told: Option<TransferEvent>)
    ensures
        told == told_of(event),
{
    match event {
        SessionEvent::StateChanged { from, to } => Some(TransferEvent::StateChanged { from, to }),
        SessionEvent::Checkpointed { file_id, durable_offset } => Some(
            TransferEvent::FileProgress { file_id, durable_offset, total_size: 0 },
        ),
        SessionEvent::PathSelected { kind } => Some(TransferEvent::PathSelected { kind }),
        SessionEvent::PathFallback => Some(TransferEvent::PathFallback),
        SessionEvent::Other => None,
    }
}

/// Whether a transfer goes on after something was said about cancelling it.
pub fn on_cancel(changed: bool, cancelled: bool) -> (result: Result<(), ClientError>)
    ensures
        match result {
            Ok(()) => !(changed && cancelled),
            Err(error) => changed && cancelled && error == ClientError::Cancelled,
        },
{
    if changed && cancelled {
        return Err(ClientError::Cancelled);
    }
    Ok(())
}

} // verus!
