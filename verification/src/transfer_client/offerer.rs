//! The decisions of the side that sends files.

use vstd::prelude::*;

use crate::ids::TransferId;
use crate::transfer_client::error::ClientError;
use crate::transfer_client::manifest::{FileId, Manifest};
use crate::transfer_client::messages::{
    spec_summary, summary, ControlMessage, ServerMessage, Totals, TransferSummary,
};
use crate::transfer_client::resume::{is_ticket_len, spec_invalid_resume_data, ResumeTicket};
use crate::transfer_client::ticket_format::{TicketError, TicketLimits, TicketView, TransferRole};

verus! {

/// The part of a file that is to be sent.
#[derive(Debug, Clone, Copy, PartialEq, Eq, Structural)]
pub struct FileSendInfo {
    pub file_id: FileId,
    pub base_offset: u64,
    pub remaining_size: u64,
}

/// The side that sends files.
pub struct Offerer {
    pub transfer_id: TransferId,
    pub manifest: Manifest,
    pub direct_only: bool,
    pub limits: TicketLimits,
}

/// What the side that sends files does about a message.
#[derive(Debug)]
pub enum OffererAction {
    /// Keep this ticket.
    KeepTicket(ResumeTicket),
    /// Connect the session again, tell of its events, and send what it has to send.
    Reconnect,
    /// Hand the relay to the session, tell of its events, and tell that the path
    /// goes over a relay.
    OpenRelay,
    /// Hand the decision of the other side to the session, tell of its events, and
    /// send what it has to send.
    Decision { accepted: bool },
    /// Hand the message to the session, tell of its events, and send what it has to
    /// send, and the data of each file that begins.
    Handle,
    /// Do nothing.
    Ignore,
}

/// What becomes of a message.
pub enum OffererCourse {
    KeepTicket,
    BadTicket,
    Reconnect,
    OpenRelay,
    NoRelay,
    Decision { accepted: bool },
    Cancelled,
    ServerError,
    Handle,
    Ignore,
}

impl Offerer {
    /// What becomes of a message. Messages about other transfers are ignored.
    pub open spec fn course(self, message: ServerMessage) -> OffererCourse {
        match message {
            ServerMessage::ResumeTicket { transfer_id, role, resume_ticket, .. } => if role
                == TransferRole::Offerer && transfer_id == self.transfer_id {
                if is_ticket_len(resume_ticket@.len(), self.limits) {
                    OffererCourse::KeepTicket
                } else {
                    OffererCourse::BadTicket
                }
            } else {
                OffererCourse::Ignore
            },
            ServerMessage::PeerReconnected { transfer_id } => if transfer_id == self.transfer_id {
                OffererCourse::Reconnect
            } else {
                OffererCourse::Ignore
            },
            ServerMessage::RelayOpen { transfer_id } => if transfer_id != self.transfer_id {
                OffererCourse::Ignore
            } else if self.direct_only {
                OffererCourse::NoRelay
            } else {
                OffererCourse::OpenRelay
            },
            ServerMessage::AcceptOffer { transfer_id, accepted } => if transfer_id
                == self.transfer_id {
                OffererCourse::Decision { accepted }
            } else {
                OffererCourse::Ignore
            },
            ServerMessage::Cancel { transfer_id } => if transfer_id == self.transfer_id {
                OffererCourse::Cancelled
            } else {
                OffererCourse::Ignore
            },
            ServerMessage::Transfer(control) => if control is TransferError {
                OffererCourse::ServerError
            } else {
                OffererCourse::Handle
            },
            _ => OffererCourse::Ignore,
        }
    }

    /// The ticket that a message brings.
    pub open spec fn ticket_in(self, message: ServerMessage) -> TicketView {
        TicketView {
            pairing_id: message->ResumeTicket_pairing_id,
            transfer_id: message->ResumeTicket_transfer_id,
            role: TransferRole::Offerer,
            manifest_digest: message->ResumeTicket_manifest_digest,
            expires_at_millis: message->ResumeTicket_expires_at,
            ticket: message->ResumeTicket_resume_ticket@,
            manifest: Some(self.manifest@),
        }
    }

    /// Whether this is done about a message.
    pub open spec fn is_answer(
        self,
        message: ServerMessage,
        result: Result<OffererAction, ClientError>,
    ) -> bool {
        match self.course(message) {
            OffererCourse::KeepTicket => match result {
                Ok(OffererAction::KeepTicket(ticket)) => ticket@ == self.ticket_in(message),
                _ => false,
            },
            OffererCourse::BadTicket => result == Err::<OffererAction, ClientError>(
                spec_invalid_resume_data(TicketError::TicketLength),
            ),
            OffererCourse::Reconnect => result == Ok::<OffererAction, ClientError>(
                OffererAction::Reconnect,
            ),
            OffererCourse::OpenRelay => result == Ok::<OffererAction, ClientError>(
                OffererAction::OpenRelay,
            ),
            OffererCourse::NoRelay => result == Err::<OffererAction, ClientError>(
                ClientError::DirectPathUnavailable,
            ),
            OffererCourse::Decision { accepted } => result == Ok::<OffererAction, ClientError>(
                OffererAction::Decision { accepted },
            ),
            OffererCourse::Cancelled => result == Err::<OffererAction, ClientError>(
                ClientError::Cancelled,
            ),
            OffererCourse::ServerError => result == Err::<OffererAction, ClientError>(
                ClientError::Server {
                    code: message->Transfer_0->TransferError_code,
                    message: message->Transfer_0->TransferError_message,
                },
            ),
            OffererCourse::Handle => result == Ok::<OffererAction, ClientError>(
                OffererAction::Handle,
            ),
            OffererCourse::Ignore => result == Ok::<OffererAction, ClientError>(
                OffererAction::Ignore,
            ),
        }
    }

    /// Whether what the session has to send is sent before the first message.
    pub fn flushes_first(awaiting_decision: bool) -> (yes: bool)
        ensures
            yes == !awaiting_decision,
    {
        !awaiting_decision
    }

    /// What is done about a message.
    pub fn on_message(&self, message: ServerMessage) -> (result: Result<OffererAction, ClientError>)
        ensures
            self.is_answer(message, result),
    {
        match message {
            ServerMessage::ResumeTicket {
                pairing_id,
                transfer_id,
                role,
                manifest_digest,
                expires_at,
                resume_ticket,
            } => {
                if !(role == TransferRole::Offerer) || !(transfer_id == self.transfer_id) {
                    return Ok(OffererAction::Ignore);
                }
                match ResumeTicket::from_wire(
                    pairing_id,
                    transfer_id,
                    TransferRole::Offerer,
                    manifest_digest,
                    expires_at,
                    resume_ticket,
                    self.limits,
                ) {
                    Ok(ticket) => Ok(
                        OffererAction::KeepTicket(ticket.with_manifest(self.manifest.copy())),
                    ),
                    Err(error) => Err(error),
                }
            },
            ServerMessage::PeerReconnected { transfer_id } => {
                if !(transfer_id == self.transfer_id) {
                    return Ok(OffererAction::Ignore);
                }
                Ok(OffererAction::Reconnect)
            },
            ServerMessage::RelayOpen { transfer_id } => {
                if !(transfer_id == self.transfer_id) {
                    return Ok(OffererAction::Ignore);
                }
                if self.direct_only {
                    return Err(ClientError::DirectPathUnavailable);
                }
                Ok(OffererAction::OpenRelay)
            },
            ServerMessage::AcceptOffer { transfer_id, accepted } => {
                if !(transfer_id == self.transfer_id) {
                    return Ok(OffererAction::Ignore);
                }
                Ok(OffererAction::Decision { accepted })
            },
            ServerMessage::Cancel { transfer_id } => {
                if !(transfer_id == self.transfer_id) {
                    return Ok(OffererAction::Ignore);
                }
                Err(ClientError::Cancelled)
            },
            ServerMessage::Transfer(control) => match control {
                ControlMessage::TransferError { code, message } => Err(
                    ClientError::Server { code, message },
                ),
                _ => Ok(OffererAction::Handle),
            },
            _ => Ok(OffererAction::Ignore),
        }
    }

    /// The part of a file that is to be sent once this message is sent, if it says
    /// that a file begins.
    pub fn data_after(control: &ControlMessage) -> (info: Option<FileSendInfo>)
        ensures
            info == match *control {
                ControlMessage::FileBegin { file_id, base_offset, remaining_size, .. } => Some(
                    FileSendInfo { file_id, base_offset, remaining_size },
                ),
                _ => None,
            },
    {
        match control {
            ControlMessage::FileBegin { file_id, base_offset, remaining_size, .. } => Some(
                FileSendInfo {
                    file_id: *file_id,
                    base_offset: *base_offset,
                    remaining_size: *remaining_size,
                },
            ),
            _ => None,
        }
    }

    /// What came of the transfer, once it is complete.
    pub fn finished(&self, complete: bool, totals: Totals) -> (result: Option<TransferSummary>)
        ensures
            result == if complete {
                Some(spec_summary(self.transfer_id, totals))
            } else {
                None
            },
    {
        if complete {
            Some(summary(self.transfer_id, totals))
        } else {
            None
        }
    }
}

/// Where a file to be sent stands in the manifest: nowhere if none of it is left
/// to send.
pub fn file_to_send(manifest: &Manifest, info: FileSendInfo) -> (result: Result<
    Option<usize>,
    ClientError,
>)
    ensures
        match result {
            Ok(None) => info.remaining_size == 0,
            Ok(Some(position)) => info.remaining_size > 0
                && crate::transfer_client::manifest::entry_at(
                manifest@.entries,
                info.file_id,
                0,
            ) == Some(position as int),
            Err(error) => {
                &&& info.remaining_size > 0
                &&& crate::transfer_client::manifest::entry_at(
                    manifest@.entries,
                    info.file_id,
                    0,
                ) is None
                &&& error == ClientError::InvalidState("manifest entry missing")
            },
        },
{
    if info.remaining_size == 0 {
        return Ok(None);
    }
    match manifest.position(info.file_id) {
        Some(position) => Ok(Some(position)),
        None => Err(ClientError::InvalidState("manifest entry missing")),
    }
}

/// A piece of a file that is to be sent next.
#[derive(Debug, Clone, Copy, PartialEq, Eq, Structural)]
pub struct Chunk {
    pub amount: usize,
    pub fin: bool,
}

/// The sending of a part of a file, piece by piece.
#[derive(Debug, Clone, Copy, PartialEq, Eq, Structural)]
pub struct FileSender {
    pub remaining_size: u64,
    pub chunk_size: usize,
    pub sent: u64,
}

impl FileSender {
    /// Whether the sending can go on.
    pub open spec fn is_valid(self) -> bool {
        self.chunk_size > 0 && self.sent <= self.remaining_size
    }

    /// The piece that is to be sent next: as much as a piece may hold of what is
    /// left, and the last if nothing is left then.
    pub open spec fn spec_next(self) -> Option<Chunk> {
        if self.sent >= self.remaining_size {
            None
        } else if self.remaining_size - self.sent <= self.chunk_size {
            Some(Chunk { amount: (self.remaining_size - self.sent) as usize, fin: true })
        } else {
            Some(Chunk { amount: self.chunk_size, fin: false })
        }
    }

    /// Nothing is sent yet.
    pub fn new(info: FileSendInfo, chunk_size: usize) -> (sender: Self)
        requires
            chunk_size > 0,
        ensures
            sender.is_valid(),
            sender == (FileSender { remaining_size: info.remaining_size, chunk_size, sent: 0 }),
    {
        FileSender { remaining_size: info.remaining_size, chunk_size, sent: 0 }
    }

    /// The piece that is to be sent next.
    pub fn next(&self) -> (chunk: Option<Chunk>)
        requires
            self.is_valid(),
        ensures
            chunk == self.spec_next(),
    {
        if self.sent >= self.remaining_size {
            return None;
        }
        let left: u64 = self.remaining_size - self.sent;
        if left <= self.chunk_size as u64 {
            Some(Chunk { amount: left as usize, fin: true })
        } else {
            Some(Chunk { amount: self.chunk_size, fin: false })
        }
    }

    /// The next piece was sent.
    pub fn advance(&mut self, chunk: Chunk)
        requires
            old(self).is_valid(),
            old(self).spec_next() == Some(chunk),
        ensures
            final(self).is_valid(),
            *final(self) == (FileSender {
                sent: (old(self).sent + chunk.amount) as u64,
                ..*old(self)
            }),
            chunk.fin == (final(self).sent == final(self).remaining_size),
            chunk.amount > 0,
    {
        self.sent = self.sent + chunk.amount as u64;
    }
}

/// The pieces that are sent from here on.
pub open spec fn chunks_left(sender: FileSender) -> Seq<Chunk>
    decreases sender.remaining_size - sender.sent,
{
    match sender.spec_next() {
        Some(chunk) => if chunk.amount > 0 && sender.is_valid() {
            seq![chunk] + chunks_left(
                FileSender { sent: (sender.sent + chunk.amount) as u64, ..sender },
            )
        } else {
            Seq::empty()
        },
        None => Seq::empty(),
    }
}

/// How much the pieces hold together.
pub open spec fn total_amount(chunks: Seq<Chunk>) -> nat
    decreases chunks.len(),
{
    if chunks.len() == 0 {
        0
    } else {
        (chunks[0].amount + total_amount(chunks.drop_first())) as nat
    }
}

/// The pieces hold exactly what is left, none holds more than it may, and the last
/// one alone says that it is the last.
pub proof fn law_chunks_hold_what_is_left(sender: FileSender)
    requires
        sender.is_valid(),
    ensures
        total_amount(chunks_left(sender)) == sender.remaining_size - sender.sent,
        forall|i: int|
            0 <= i < chunks_left(sender).len() ==> {
                &&& 0 < (#[trigger] chunks_left(sender)[i]).amount <= sender.chunk_size
                &&& chunks_left(sender)[i].fin == (i == chunks_left(sender).len() - 1)
            },
    decreases sender.remaining_size - sender.sent,
{
    let chunks = chunks_left(sender);
    match sender.spec_next() {
        Some(chunk) => {
            let after = FileSender { sent: (sender.sent + chunk.amount) as u64, ..sender };
            law_chunks_hold_what_is_left(after);
            let rest = chunks_left(after);
            assert(chunks.drop_first() =~= rest);
            assert(chunk.fin ==> rest.len() == 0);
            assert(!chunk.fin ==> rest.len() > 0) by {
                assert(!chunk.fin ==> after.spec_next() is Some);
            }
            assert forall|i: int| 0 <= i < chunks.len() implies {
                &&& 0 < (#[trigger] chunks[i]).amount <= sender.chunk_size
                &&& chunks[i].fin == (i == chunks.len() - 1)
            } by {
                if i > 0 {
                    assert(chunks[i] == rest[i - 1]);
                }
            }
        },
        None => {},
    }
}

/// Messages about other transfers change nothing.
pub proof fn law_offerer_ignores_other_transfers(offerer: Offerer, message: ServerMessage)
    requires
        match message {
            ServerMessage::ResumeTicket { transfer_id, .. } => transfer_id != offerer.transfer_id,
            ServerMessage::PeerReconnected { transfer_id } => transfer_id != offerer.transfer_id,
            ServerMessage::RelayOpen { transfer_id } => transfer_id != offerer.transfer_id,
            ServerMessage::AcceptOffer { transfer_id, .. } => transfer_id != offerer.transfer_id,
            ServerMessage::Cancel { transfer_id } => transfer_id != offerer.transfer_id,
            _ => false,
        },
    ensures
        offerer.course(message) is Ignore,
{
}

} // verus!
