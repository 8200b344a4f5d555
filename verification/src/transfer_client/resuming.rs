//! Taking up a transfer again with its ticket, step by step.

use vstd::prelude::*;

use crate::ids::Id;
use crate::transfer_client::error::ClientError;
use crate::transfer_client::manifest::Manifest;
use crate::transfer_client::messages::{ControlMessage, ServerMessage};
use crate::transfer_client::pairing::{
    check_resume_receive, check_resume_send, check_resumed_digest, reconnect_reply, send_problem,
    sources_problem, validate_resume_sources,
};
use crate::transfer_client::requests::Request;
use crate::transfer_client::resume::ResumeTicket;
use crate::transfer_client::ticket_format::{TicketView, TransferRole};

verus! {

/// Sending files again, before it is known whether they are still the same.
#[derive(Debug)]
pub struct ResumeSend {
    ticket: ResumeTicket,
}

impl View for ResumeSend {
    type V = TicketView;

    closed spec fn view(&self) -> TicketView {
        self.ticket@
    }
}

impl ResumeSend {
    /// The ticket is for sending, and says which files.
    pub open spec fn well_formed(self) -> bool {
        self@.role == TransferRole::Offerer && self@.manifest is Some
    }

    /// Begins with a ticket that can be used for it.
    pub fn new(ticket: ResumeTicket, now_millis: u64) -> (result: Result<Self, ClientError>)
        ensures
            match result {
                Ok(resume) => send_problem(ticket@, now_millis) is None && resume.well_formed()
                    && resume@ == ticket@,
                Err(error) => send_problem(ticket@, now_millis) == Some(error),
            },
    {
        match check_resume_send(&ticket, now_millis) {
            Ok(_) => Ok(ResumeSend { ticket }),
            Err(error) => Err(error),
        }
    }

    /// The files to send.
    pub fn manifest(&self) -> (manifest: &Manifest)
        requires
            self.well_formed(),
        ensures
            self@.manifest == Some(manifest@),
    {
        self.ticket.manifest().unwrap()
    }

    /// Goes on if the files that are there are those of the ticket. How large
    /// they are together is told.
    pub fn on_sources(self, expected_size: u64, actual: &Manifest, actual_size: u64) -> (result:
        Result<Resume, ClientError>)
        requires
            self.well_formed(),
        ensures
            match result {
                Ok(resume) => sources_problem(
                    self@.manifest->0,
                    expected_size,
                    actual@,
                    actual_size,
                ) is None && resume.well_formed() && resume@ == self@,
                Err(error) => sources_problem(
                    self@.manifest->0,
                    expected_size,
                    actual@,
                    actual_size,
                ) is Some && error == ClientError::InvalidState(
                    sources_problem(self@.manifest->0, expected_size, actual@, actual_size)->0,
                ),
            },
    {
        match validate_resume_sources(self.manifest(), expected_size, actual, actual_size) {
            Ok(_) => Ok(Resume { ticket: self.ticket }),
            Err(error) => Err(error),
        }
    }
}

/// A transfer that the server is asked to take up again.
#[derive(Debug)]
pub struct Resume {
    ticket: ResumeTicket,
}

/// What a message leads to.
#[derive(Debug)]
pub enum ResumeStep {
    /// The answer is still to come.
    Waits(Resume),
    /// The transfer of the ticket goes on.
    Granted(ResumeTicket),
}

/// What a message is to lead to.
pub enum ResumeCourse {
    Waits,
    Granted,
    Fails(ClientError),
}

/// What a message leads to while a transfer is to be taken up again. Only a grant
/// for the pairing, the transfer and the role of the ticket counts; whoever sends
/// also holds it to the files of the ticket.
pub open spec fn resume_course(ticket: TicketView, message: ServerMessage) -> ResumeCourse {
    match message {
        ServerMessage::ResumeAccepted { pairing_id, transfer_id, role, manifest_digest } => if !(
        pairing_id == ticket.pairing_id && transfer_id == ticket.transfer_id && role
            == ticket.role) {
            ResumeCourse::Waits
        } else if ticket.role == TransferRole::Offerer && manifest_digest
            != ticket.manifest->0.digest {
            ResumeCourse::Fails(ClientError::InvalidState("resume manifest digest mismatch"))
        } else {
            ResumeCourse::Granted
        },
        ServerMessage::Transfer(ControlMessage::TransferError { code, message }) => {
            ResumeCourse::Fails(ClientError::Server { code, message })
        },
        _ => ResumeCourse::Waits,
    }
}

impl View for Resume {
    type V = TicketView;

    closed spec fn view(&self) -> TicketView {
        self.ticket@
    }
}

impl Resume {
    /// A ticket for sending says which files.
    pub open spec fn well_formed(self) -> bool {
        self@.role == TransferRole::Offerer ==> self@.manifest is Some
    }

    /// Begins to receive again, with a ticket that can be used for it.
    pub fn receive(ticket: ResumeTicket, now_millis: u64) -> (result: Result<Self, ClientError>)
        ensures
            match result {
                Ok(resume) => ticket@.role == TransferRole::Accepter && now_millis
                    < ticket@.expires_at_millis && resume.well_formed() && resume@ == ticket@,
                Err(error) => if ticket@.role != TransferRole::Accepter {
                    error == ClientError::InvalidState("resume ticket is not for receiving")
                } else {
                    now_millis >= ticket@.expires_at_millis && error
                        == ClientError::ResumeTicketExpired
                },
            },
    {
        match check_resume_receive(&ticket, now_millis) {
            Ok(_) => Ok(Resume { ticket }),
            Err(error) => Err(error),
        }
    }

    /// What the server is asked.
    pub fn request<C>(&self, instance: Id) -> (request: Request<C>)
        ensures
            match request {
                Request::ResumeTransfer {
                    pairing_id,
                    transfer_id,
                    role,
                    instance: asking,
                    ticket,
                } => pairing_id == self@.pairing_id && transfer_id == self@.transfer_id && role
                    == self@.role && asking == instance && ticket@ == self@.ticket,
                _ => false,
            },
    {
        Request::ResumeTransfer {
            pairing_id: self.ticket.pairing_id(),
            transfer_id: self.ticket.transfer_id(),
            role: self.ticket.role(),
            instance,
            ticket: self.ticket.wire_ticket(),
        }
    }

    /// Takes the next message.
    pub fn on_message(self, message: ServerMessage) -> (result: Result<ResumeStep, ClientError>)
        requires
            self.well_formed(),
        ensures
            match (resume_course(self@, message), result) {
                (ResumeCourse::Waits, Ok(ResumeStep::Waits(resume))) => resume.well_formed()
                    && resume@ == self@,
                (ResumeCourse::Granted, Ok(ResumeStep::Granted(ticket))) => ticket@ == self@,
                (ResumeCourse::Fails(expected), Err(error)) => error == expected,
                _ => false,
            },
    {
        let accepted = match reconnect_reply(&self.ticket, message) {
            Ok(Some(accepted)) => accepted,
            Ok(None) => {
                return Ok(ResumeStep::Waits(self));
            },
            Err(error) => {
                return Err(error);
            },
        };
        if self.ticket.role() == TransferRole::Offerer {
            if let Some(manifest) = self.ticket.manifest() {
                match check_resumed_digest(accepted, manifest) {
                    Ok(_) => {},
                    Err(error) => {
                        return Err(error);
                    },
                }
            }
        }
        Ok(ResumeStep::Granted(self.ticket))
    }
}

/// A ticket takes up nothing but the transfer that it is for: what is granted is
/// that transfer, in its pairing and for its role, and whoever sends goes on with
/// the files of the ticket only.
pub proof fn law_ticket_takes_up_only_its_transfer(ticket: TicketView, message: ServerMessage)
    requires
        resume_course(ticket, message) is Granted,
    ensures
        message matches ServerMessage::ResumeAccepted {
            pairing_id,
            transfer_id,
            role,
            manifest_digest,
        } && pairing_id == ticket.pairing_id && transfer_id == ticket.transfer_id && role
            == ticket.role && (role == TransferRole::Offerer ==> manifest_digest
            == ticket.manifest->0.digest),
{
}

} // verus!
