//! The decisions of the side that receives files.

use vstd::prelude::*;

use crate::ids::TransferId;
use crate::transfer_client::error::{ClientError, IoKind};
use crate::transfer_client::frame::DataFrame;
use crate::transfer_client::manifest::{entry_at, Digest, FileId, HashAlgorithm, Manifest};
use crate::transfer_client::messages::{
    spec_summary, summary, ControlMessage, ServerMessage, Totals, TransferSummary,
};

verus! {

/// The part of a file that is to be received.
#[derive(Debug, Clone, Copy, PartialEq, Eq, Structural)]
pub struct FileReceiveInfo {
    pub file_id: FileId,
    pub stream_id: u64,
    pub base_offset: u64,
    pub remaining_size: u64,
}

/// How far the answer to a message has come.
#[derive(Debug, Clone, Copy, PartialEq, Eq, Structural)]
pub enum AccepterPhase {
    /// The next message is awaited.
    Listening,
    /// The session has the message. It says that the manifest ends, or that a file
    /// begins, or neither.
    Handling { ends: bool, begins: Option<FileReceiveInfo> },
    /// The offer is accepted.
    Accepting { begins: Option<FileReceiveInfo> },
    /// What the session has to send is sent.
    Flushing { begins: Option<FileReceiveInfo> },
    /// A file is received.
    Receiving,
    /// The transfer is complete.
    Done,
}

/// What the side that receives files does next.
#[derive(Debug, Clone, Copy, PartialEq, Eq, Structural)]
pub enum AccepterAction {
    /// Wait for the next message.
    Listen,
    /// Hand the relay to the session, tell of its events, and tell that the path
    /// goes over a relay.
    OpenRelay,
    /// Connect the session again, tell of its events, and send what it has to send.
    Reconnect,
    /// Hand the message to the session, and tell of its events.
    Handle,
    /// Let the session tell how much of the file there is, and tell of its events.
    AnswerQuery { file_id: FileId, content_hash: Digest, size: u64 },
    /// Register the manifest, accept the offer, and tell of the events.
    Accept,
    /// Send what the session has to send.
    Flush,
    /// Receive the file.
    Receive(FileReceiveInfo),
    /// The transfer is complete.
    Finish(TransferSummary),
}

/// The side that receives files.
#[derive(Debug, Clone, Copy, PartialEq, Eq, Structural)]
pub struct Accepter {
    pub transfer_id: TransferId,
    pub direct_only: bool,
    pub phase: AccepterPhase,
}

/// The file that a message says begins.
pub open spec fn begun_by(control: ControlMessage) -> Option<FileReceiveInfo> {
    match control {
        ControlMessage::FileBegin { file_id, data_stream_id, base_offset, remaining_size } => Some(
            FileReceiveInfo { file_id, stream_id: data_stream_id, base_offset, remaining_size },
        ),
        _ => None,
    }
}

impl Accepter {
    /// What is done about a message, and how far the answer has come then.
    /// Messages about other transfers are ignored.
    pub open spec fn answer(self, message: ServerMessage, has_manifest: bool) -> Result<
        (AccepterAction, AccepterPhase),
        ClientError,
    > {
        match message {
            ServerMessage::RelayOpen { transfer_id } => if transfer_id != self.transfer_id {
                Ok((AccepterAction::Listen, AccepterPhase::Listening))
            } else if self.direct_only {
                Err(ClientError::DirectPathUnavailable)
            } else {
                Ok((AccepterAction::OpenRelay, AccepterPhase::Listening))
            },
            ServerMessage::PeerReconnected { transfer_id } => if transfer_id == self.transfer_id
                && has_manifest {
                Ok((AccepterAction::Reconnect, AccepterPhase::Listening))
            } else {
                Ok((AccepterAction::Listen, AccepterPhase::Listening))
            },
            ServerMessage::Cancel { transfer_id } => if transfer_id == self.transfer_id {
                Err(ClientError::Cancelled)
            } else {
                Ok((AccepterAction::Listen, AccepterPhase::Listening))
            },
            ServerMessage::Transfer(control) => match control {
                ControlMessage::TransferError { code, message } => Err(
                    ClientError::Server { code, message },
                ),
                ControlMessage::ResumeQuery { file_id, content_hash, size } => Ok(
                    (
                        AccepterAction::AnswerQuery { file_id, content_hash, size },
                        AccepterPhase::Handling { ends: false, begins: None },
                    ),
                ),
                _ => Ok(
                    (
                        AccepterAction::Handle,
                        AccepterPhase::Handling {
                            ends: control is ManifestEnd,
                            begins: begun_by(control),
                        },
                    ),
                ),
            },
            _ => Ok((AccepterAction::Listen, AccepterPhase::Listening)),
        }
    }

    /// The side that waits for its first message.
    pub fn new(transfer_id: TransferId, direct_only: bool) -> (accepter: Self)
        ensures
            accepter == (Accepter { transfer_id, direct_only, phase: AccepterPhase::Listening }),
    {
        Accepter { transfer_id, direct_only, phase: AccepterPhase::Listening }
    }

    /// What is done about a message.
    pub fn on_message(&mut self, message: ServerMessage, has_manifest: bool) -> (result: Result<
        AccepterAction,
        ClientError,
    >)
        requires
            old(self).phase is Listening,
        ensures
            match result {
                Ok(action) => old(self).answer(message, has_manifest) == Ok::<
                    (AccepterAction, AccepterPhase),
                    ClientError,
                >((action, final(self).phase)),
                Err(error) => old(self).answer(message, has_manifest) == Err::<
                    (AccepterAction, AccepterPhase),
                    ClientError,
                >(error) && *final(self) == *old(self),
            },
            *final(self) == (Accepter { phase: final(self).phase, ..*old(self) }),
    {
        match message {
            ServerMessage::RelayOpen { transfer_id } => {
                if !(transfer_id == self.transfer_id) {
                    return Ok(AccepterAction::Listen);
                }
                if self.direct_only {
                    return Err(ClientError::DirectPathUnavailable);
                }
                Ok(AccepterAction::OpenRelay)
            },
            ServerMessage::PeerReconnected { transfer_id } => {
                if transfer_id == self.transfer_id && has_manifest {
                    Ok(AccepterAction::Reconnect)
                } else {
                    Ok(AccepterAction::Listen)
                }
            },
            ServerMessage::Cancel { transfer_id } => {
                if transfer_id == self.transfer_id {
                    Err(ClientError::Cancelled)
                } else {
                    Ok(AccepterAction::Listen)
                }
            },
            ServerMessage::Transfer(control) => match control {
                ControlMessage::TransferError { code, message } => Err(
                    ClientError::Server { code, message },
                ),
                ControlMessage::ResumeQuery { file_id, content_hash, size } => {
                    self.phase = AccepterPhase::Handling { ends: false, begins: None };
                    Ok(AccepterAction::AnswerQuery { file_id, content_hash, size })
                },
                ControlMessage::FileBegin {
                    file_id,
                    data_stream_id,
                    base_offset,
                    remaining_size,
                } => {
                    let info = FileReceiveInfo {
                        file_id,
                        stream_id: data_stream_id,
                        base_offset,
                        remaining_size,
                    };
                    self.phase = AccepterPhase::Handling { ends: false, begins: Some(info) };
                    Ok(AccepterAction::Handle)
                },
                ControlMessage::ManifestEnd => {
                    self.phase = AccepterPhase::Handling { ends: true, begins: None };
                    Ok(AccepterAction::Handle)
                },
                ControlMessage::Other => {
                    self.phase = AccepterPhase::Handling { ends: false, begins: None };
                    Ok(AccepterAction::Handle)
                },
            },
            _ => Ok(AccepterAction::Listen),
        }
    }

    /// The session has taken the message: the offer is accepted once the manifest
    /// is complete and a decision is awaited.
    pub fn on_handled(&mut self, awaiting_decision: bool, has_manifest: bool) -> (result: Result<
        AccepterAction,
        ClientError,
    >)
        requires
            old(self).phase is Handling,
        ensures
            ({
                let accepts = old(self).phase->ends && awaiting_decision;
                match result {
                    Ok(AccepterAction::Accept) => accepts && has_manifest && *final(self)
                        == (Accepter {
                        phase: AccepterPhase::Accepting {
                            begins: old(self).phase->Handling_begins,
                        },
                        ..*old(self)
                    }),
                    Ok(action) => !accepts && action == AccepterAction::Flush && *final(self)
                        == (Accepter {
                        phase: AccepterPhase::Flushing { begins: old(self).phase->Handling_begins },
                        ..*old(self)
                    }),
                    Err(error) => accepts && !has_manifest && error == ClientError::InvalidState(
                        "manifest not assembled",
                    ) && *final(self) == *old(self),
                }
            }),
    {
        match self.phase {
            AccepterPhase::Handling { ends, begins } => {
                if ends && awaiting_decision {
                    if !has_manifest {
                        return Err(ClientError::InvalidState("manifest not assembled"));
                    }
                    self.phase = AccepterPhase::Accepting { begins };
                    return Ok(AccepterAction::Accept);
                }
                self.phase = AccepterPhase::Flushing { begins };
                Ok(AccepterAction::Flush)
            },
            _ => Ok(AccepterAction::Flush),
        }
    }

    /// The offer is accepted.
    pub fn on_accepted(&mut self) -> (action: AccepterAction)
        requires
            old(self).phase is Accepting,
        ensures
            action == AccepterAction::Flush,
            *final(self) == (Accepter {
                phase: AccepterPhase::Flushing { begins: old(self).phase->Accepting_begins },
                ..*old(self)
            }),
    {
        match self.phase {
            AccepterPhase::Accepting { begins } => {
                self.phase = AccepterPhase::Flushing { begins };
            },
            _ => {},
        }
        AccepterAction::Flush
    }

    /// What the session had to send is sent: the transfer may be complete, or a
    /// file is received.
    pub fn on_flushed(&mut self, complete: bool, totals: Option<Totals>) -> (result: Result<
        AccepterAction,
        ClientError,
    >)
        requires
            old(self).phase is Flushing,
        ensures
            match result {
                Ok(action) => if complete {
                    &&& totals is Some
                    &&& action == AccepterAction::Finish(
                        spec_summary(old(self).transfer_id, totals->0),
                    )
                    &&& *final(self) == (Accepter { phase: AccepterPhase::Done, ..*old(self) })
                } else {
                    match old(self).phase->Flushing_begins {
                        Some(info) => action == AccepterAction::Receive(info) && *final(self)
                            == (Accepter { phase: AccepterPhase::Receiving, ..*old(self) }),
                        None => action == AccepterAction::Listen && *final(self) == (Accepter {
                            phase: AccepterPhase::Listening,
                            ..*old(self)
                        }),
                    }
                },
                Err(error) => complete && totals is None && error == ClientError::InvalidState(
                    "manifest not available",
                ) && *final(self) == *old(self),
            },
    {
        if complete {
            match totals {
                Some(totals) => {
                    self.phase = AccepterPhase::Done;
                    Ok(AccepterAction::Finish(summary(self.transfer_id, totals)))
                },
                None => Err(ClientError::InvalidState("manifest not available")),
            }
        } else {
            match self.phase {
                AccepterPhase::Flushing { begins: Some(info) } => {
                    self.phase = AccepterPhase::Receiving;
                    Ok(AccepterAction::Receive(info))
                },
                _ => {
                    self.phase = AccepterPhase::Listening;
                    Ok(AccepterAction::Listen)
                },
            }
        }
    }

    /// The file is received.
    pub fn on_received(&mut self) -> (action: AccepterAction)
        requires
            old(self).phase is Receiving,
        ensures
            action == AccepterAction::Flush,
            *final(self) == (Accepter {
                phase: AccepterPhase::Flushing { begins: None },
                ..*old(self)
            }),
    {
        self.phase = AccepterPhase::Flushing { begins: None };
        AccepterAction::Flush
    }
}

/// Messages about other transfers change nothing.
pub proof fn law_accepter_ignores_other_transfers(
    accepter: Accepter,
    message: ServerMessage,
    has_manifest: bool,
)
    requires
        match message {
            ServerMessage::ResumeTicket { transfer_id, .. } => transfer_id != accepter.transfer_id,
            ServerMessage::PeerReconnected { transfer_id } => transfer_id != accepter.transfer_id,
            ServerMessage::RelayOpen { transfer_id } => transfer_id != accepter.transfer_id,
            ServerMessage::AcceptOffer { transfer_id, .. } => transfer_id != accepter.transfer_id,
            ServerMessage::Cancel { transfer_id } => transfer_id != accepter.transfer_id,
            _ => false,
        },
    ensures
        accepter.answer(message, has_manifest) == Ok::<
            (AccepterAction, AccepterPhase),
            ClientError,
        >((AccepterAction::Listen, AccepterPhase::Listening)),
{
}

/// A piece of a file, on its way to the storage.
#[derive(Debug)]
pub struct DataChunk {
    pub file_id: FileId,
    pub stream_id: u64,
    pub offset: u64,
    pub bytes: Vec<u8>,
    pub fin: bool,
}

/// The receiving of a part of a file, piece by piece.
#[derive(Debug, Clone, Copy, PartialEq, Eq, Structural)]
pub struct FileReceiver {
    pub info: FileReceiveInfo,
    pub saw_fin: bool,
}

impl FileReceiver {
    /// Nothing is received yet.
    pub fn new(info: FileReceiveInfo) -> (receiver: Self)
        ensures
            receiver == (FileReceiver { info, saw_fin: false }),
    {
        FileReceiver { info, saw_fin: false }
    }

    /// Whether more pieces are awaited.
    pub fn waits(&self) -> (yes: bool)
        ensures
            yes == (self.info.remaining_size > 0 && !self.saw_fin),
    {
        self.info.remaining_size > 0 && !self.saw_fin
    }

    /// What to store of a frame. The stream must not end before the last piece.
    pub fn on_frame(&mut self, frame: Option<DataFrame>) -> (result: Result<DataChunk, ClientError>)
        ensures
            match result {
                Ok(chunk) => {
                    &&& frame is Some
                    &&& chunk.file_id == old(self).info.file_id
                    &&& chunk.stream_id == old(self).info.stream_id
                    &&& chunk.offset == frame->0.offset
                    &&& chunk.bytes == frame->0.data
                    &&& chunk.fin == frame->0.fin
                    &&& *final(self) == (FileReceiver {
                        saw_fin: old(self).saw_fin || frame->0.fin,
                        ..*old(self)
                    })
                },
                Err(error) => frame is None && *final(self) == *old(self) && error == (
                ClientError::Io {
                    kind: IoKind::UnexpectedEof,
                    message: "data stream ended before FIN",
                }),
            },
    {
        match frame {
            Some(frame) => {
                if frame.fin {
                    self.saw_fin = true;
                }
                Ok(
                    DataChunk {
                        file_id: self.info.file_id,
                        stream_id: self.info.stream_id,
                        offset: frame.offset,
                        bytes: frame.data,
                        fin: frame.fin,
                    },
                )
            },
            None => Err(
                ClientError::Io {
                    kind: IoKind::UnexpectedEof,
                    message: "data stream ended before FIN",
                },
            ),
        }
    }

    /// The state to note when all is received.
    pub fn checkpoint(&self, last_checkpoint_id: u64, manifest: Option<&Manifest>) -> (checkpoint:
        Checkpoint)
        ensures
            checkpoint.durable_offset == self.end(),
            checkpoint.checkpoint_id == if last_checkpoint_id < u64::MAX {
                (last_checkpoint_id + 1) as u64
            } else {
                u64::MAX
            },
            checkpoint.state_hash == (Digest {
                algorithm: self.algorithm(manifest),
                high: 0,
                low: 0,
            }),
    {
        let algorithm = match manifest {
            Some(manifest) => match manifest.position(self.info.file_id) {
                Some(position) => manifest.entries[position].content_hash.algorithm,
                None => HashAlgorithm::Blake3,
            },
            None => HashAlgorithm::Blake3,
        };
        Checkpoint {
            durable_offset: self.info.base_offset.saturating_add(self.info.remaining_size),
            checkpoint_id: last_checkpoint_id.saturating_add(1),
            state_hash: Digest { algorithm, high: 0, low: 0 },
        }
    }

    /// Where the part of the file ends.
    pub open spec fn end(self) -> u64 {
        if self.info.base_offset + self.info.remaining_size <= u64::MAX {
            (self.info.base_offset + self.info.remaining_size) as u64
        } else {
            u64::MAX
        }
    }

    /// How the digest of the file is computed.
    pub open spec fn algorithm(self, manifest: Option<&Manifest>) -> HashAlgorithm {
        match manifest {
            Some(manifest) => match entry_at(manifest@.entries, self.info.file_id, 0) {
                Some(position) => manifest@.entries[position].content_hash.algorithm,
                None => HashAlgorithm::Blake3,
            },
            None => HashAlgorithm::Blake3,
        }
    }

    /// The size and the digest that the whole file must have.
    pub fn expected(&self, manifest: Option<&Manifest>) -> (result: Result<
        (u64, Digest),
        ClientError,
    >)
        ensures
            match manifest {
                None => result == Err::<(u64, Digest), ClientError>(
                    ClientError::InvalidState("manifest not available"),
                ),
                Some(manifest) => match entry_at(manifest@.entries, self.info.file_id, 0) {
                    None => result == Err::<(u64, Digest), ClientError>(
                        ClientError::InvalidState("manifest entry missing"),
                    ),
                    Some(position) => result == Ok::<(u64, Digest), ClientError>(
                        (
                            manifest@.entries[position].size,
                            manifest@.entries[position].content_hash,
                        ),
                    ),
                },
            },
    {
        match manifest {
            None => Err(ClientError::InvalidState("manifest not available")),
            Some(manifest) => match manifest.position(self.info.file_id) {
                None => Err(ClientError::InvalidState("manifest entry missing")),
                Some(position) => Ok(
                    (manifest.entries[position].size, manifest.entries[position].content_hash),
                ),
            },
        }
    }
}

/// A state of a file to note.
#[derive(Debug, Clone, Copy, PartialEq, Eq, Structural)]
pub struct Checkpoint {
    pub durable_offset: u64,
    pub checkpoint_id: u64,
    pub state_hash: Digest,
}

} // verus!
