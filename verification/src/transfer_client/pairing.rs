//! How the two sides of a transfer come together, and come together again.

use vstd::prelude::*;
use vstd::string::*;

use crate::ids::{Id, TransferId};
use crate::network_probe::candidate::is_digest;
use crate::network_probe::{candidate_digest, Candidate, KindCodes, ProbeError};
use crate::random::random_bytes;
use crate::transfer_client::config::{ReceiveOptions, RejectReason};
use crate::transfer_client::error::ClientError;
use crate::transfer_client::manifest::{
    entry_views, Digest, EntryView, Manifest, ManifestEntry, ManifestView,
};
use crate::transfer_client::messages::{
    spec_transfer_error, transfer_error, ControlMessage, ServerMessage,
};
use crate::transfer_client::requests::Request;
use crate::transfer_client::resume::{
    is_ticket_len, spec_invalid_resume_data, PairingId, ResumeTicket,
};
use crate::transfer_client::ticket_format::{TicketError, TicketLimits, TicketView, TransferRole};

verus! {

/// An offer of files that can be made once.
#[derive(Debug)]
pub struct PairingOffer {
    pairing_id: PairingId,
    expires_at_millis: u64,
    started: bool,
}

/// What is known of an offer that can be made once.
pub struct PairingOfferView {
    pub pairing_id: PairingId,
    pub expires_at_millis: u64,
    pub started: bool,
}

impl View for PairingOffer {
    type V = PairingOfferView;

    closed spec fn view(&self) -> PairingOfferView {
        PairingOfferView {
            pairing_id: self.pairing_id,
            expires_at_millis: self.expires_at_millis,
            started: self.started,
        }
    }
}

impl PairingOffer {
    /// An offer in a pairing that the server has made.
    pub fn new(pairing_id: PairingId, expires_at_millis: u64) -> (offer: Self)
        ensures
            offer@ == (PairingOfferView { pairing_id, expires_at_millis, started: false }),
    {
        PairingOffer { pairing_id, expires_at_millis, started: false }
    }

    /// The pairing.
    pub fn pairing_id(&self) -> (id: PairingId)
        ensures
            id == self@.pairing_id,
    {
        self.pairing_id
    }

    /// When the pairing is over.
    pub fn expires_at_millis(&self) -> (millis: u64)
        ensures
            millis == self@.expires_at_millis,
    {
        self.expires_at_millis
    }

    /// Starts the offer, which can be done once.
    pub fn start(&mut self) -> (result: Result<(), ClientError>)
        ensures
            final(self)@ == (PairingOfferView { started: true, ..old(self)@ }),
            match result {
                Ok(()) => !old(self)@.started,
                Err(error) => old(self)@.started && error == ClientError::InvalidState(
                    "pairing offer already started",
                ),
            },
    {
        if self.started {
            return Err(ClientError::InvalidState("pairing offer already started"));
        }
        self.started = true;
        Ok(())
    }
}

/// The offer in the pairing that a message says is made.
pub fn pairing_created(message: ServerMessage) -> (result: Result<PairingOffer, ClientError>)
    ensures
        match message {
            ServerMessage::PairingCreated { pairing_id, expires_at } => match result {
                Ok(offer) => offer@ == (PairingOfferView {
                    pairing_id,
                    expires_at_millis: expires_at,
                    started: false,
                }),
                Err(_) => false,
            },
            _ => result == Err::<PairingOffer, ClientError>(
                ClientError::InvalidState("PairingCreated"),
            ),
        },
{
    match message {
        ServerMessage::PairingCreated { pairing_id, expires_at } => Ok(
            PairingOffer::new(pairing_id, expires_at),
        ),
        _ => Err(ClientError::InvalidState("PairingCreated")),
    }
}

/// An offer of files from the other side, which can be decided about once.
#[derive(Debug)]
pub struct IncomingOffer {
    pub pairing_id: PairingId,
    pub transfer_id: TransferId,
    pub manifest_digest: Digest,
    pub file_count: u64,
    pub total_size: u64,
    pub sender_display_name: String,
    pub resume_ticket: ResumeTicket,
    pub decided: bool,
}

impl IncomingOffer {
    /// The pairing.
    pub fn pairing_id(&self) -> (value: PairingId)
        ensures
            value == self.pairing_id,
    {
        self.pairing_id
    }

    /// The transfer that is offered.
    pub fn transfer_id(&self) -> (value: TransferId)
        ensures
            value == self.transfer_id,
    {
        self.transfer_id
    }

    /// The digest of the files.
    pub fn manifest_digest(&self) -> (value: Digest)
        ensures
            value == self.manifest_digest,
    {
        self.manifest_digest
    }

    /// How many files are offered.
    pub fn file_count(&self) -> (value: u64)
        ensures
            value == self.file_count,
    {
        self.file_count
    }

    /// How large the files are together.
    pub fn total_size(&self) -> (value: u64)
        ensures
            value == self.total_size,
    {
        self.total_size
    }

    /// What the other side is called.
    pub fn sender_display_name(&self) -> (name: &str)
        ensures
            name@ == self.sender_display_name@,
    {
        self.sender_display_name.as_str()
    }

    /// The ticket with which the transfer can be taken up again.
    pub fn resume_ticket(&self) -> (ticket: &ResumeTicket)
        ensures
            *ticket == self.resume_ticket,
    {
        &self.resume_ticket
    }

    /// Decides about the offer, which can be done once.
    pub fn decide(&mut self) -> (result: Result<(), ClientError>)
        ensures
            *final(self) == (IncomingOffer { decided: true, ..*old(self) }),
            match result {
                Ok(()) => !old(self).decided,
                Err(error) => old(self).decided && error == ClientError::InvalidState(
                    "incoming offer already decided",
                ),
            },
    {
        if self.decided {
            return Err(ClientError::InvalidState("incoming offer already decided"));
        }
        self.decided = true;
        Ok(())
    }

    /// Takes the offer, which can be decided about once: what the server is told.
    pub fn accept_offer<C>(&mut self, options: &ReceiveOptions) -> (result: Result<
        Request<C>,
        ClientError,
    >)
        ensures
            *final(self) == (IncomingOffer { decided: true, ..*old(self) }),
            match result {
                Ok(Request::AcceptOffer { transfer_id, accepted, policy }) => !old(self).decided
                    && transfer_id == old(self).transfer_id && accepted && policy@
                    == options.target_root_label@,
                Ok(_) => false,
                Err(error) => old(self).decided && error == ClientError::InvalidState(
                    "incoming offer already decided",
                ),
            },
    {
        match self.decide() {
            Ok(_) => Ok(
                Request::AcceptOffer {
                    transfer_id: self.transfer_id,
                    accepted: true,
                    policy: options.target_root_label.clone(),
                },
            ),
            Err(error) => Err(error),
        }
    }

    /// Refuses the offer, which can be decided about once: what the server is told.
    pub fn reject_offer<C>(&mut self, reason: RejectReason) -> (result: Result<
        Request<C>,
        ClientError,
    >)
        ensures
            *final(self) == (IncomingOffer { decided: true, ..*old(self) }),
            match result {
                Ok(Request::AcceptOffer { transfer_id, accepted, policy }) => !old(self).decided
                    && transfer_id == old(self).transfer_id && !accepted && policy@
                    == match reason {
                    RejectReason::User => "reject:1"@,
                    RejectReason::Policy => "reject:2"@,
                },
                Ok(_) => false,
                Err(error) => old(self).decided && error == ClientError::InvalidState(
                    "incoming offer already decided",
                ),
            },
    {
        match self.decide() {
            Ok(_) => Ok(
                Request::AcceptOffer {
                    transfer_id: self.transfer_id,
                    accepted: false,
                    policy: reason.policy(),
                },
            ),
            Err(error) => Err(error),
        }
    }
}

/// What the server is told of the files that are offered.
pub fn offer_ready<C>(
    transfer_id: TransferId,
    manifest: &Manifest,
    total_size: u64,
    sender_display_name: String,
) -> (request: Request<C>)
    ensures
        request == (Request::<C>::OfferReady {
            transfer_id,
            manifest_digest: manifest@.digest,
            file_count: manifest@.entries.len() as u64,
            total_size,
            sender_display_name,
        }),
{
    Request::OfferReady {
        transfer_id,
        manifest_digest: manifest.digest,
        file_count: manifest.file_count(),
        total_size,
        sender_display_name,
    }
}

/// How far joining a pairing has come.
pub enum JoinPhase {
    /// The server has not said yet that the pairing is joined.
    Joining,
    /// The other side has not made its offer yet. The ticket comes before it.
    Waiting { pairing_id: PairingId, ticket: Option<ResumeTicket> },
}

/// What is known of how far joining a pairing has come.
pub enum JoinView {
    Joining,
    Waiting { pairing_id: PairingId, ticket: Option<TicketView> },
}

/// Joining a pairing.
pub struct Join {
    phase: JoinPhase,
    limits: TicketLimits,
}

/// What is known of a ticket that may be missing.
pub open spec fn optional_ticket(ticket: Option<ResumeTicket>) -> Option<TicketView> {
    match ticket {
        Some(ticket) => Some(ticket@),
        None => None,
    }
}

/// What comes of a message while joining.
pub enum JoinCourse {
    /// This is how far joining has come.
    Goes(JoinView),
    /// The offer is made.
    Offered,
    Fails(ClientError),
}

/// The ticket that a message brings to the side that receives files.
pub open spec fn accepter_ticket(message: ServerMessage) -> TicketView {
    TicketView {
        pairing_id: message->ResumeTicket_pairing_id,
        transfer_id: message->ResumeTicket_transfer_id,
        role: TransferRole::Accepter,
        manifest_digest: message->ResumeTicket_manifest_digest,
        expires_at_millis: message->ResumeTicket_expires_at,
        ticket: message->ResumeTicket_resume_ticket@,
        manifest: None,
    }
}

/// What comes of a message while joining.
pub open spec fn join_course(
    view: JoinView,
    limits: TicketLimits,
    message: ServerMessage,
) -> JoinCourse {
    match message {
        ServerMessage::Transfer(control) => JoinCourse::Fails(spec_transfer_error(control)),
        ServerMessage::PairingJoined { pairing_id } => if view is Joining {
            JoinCourse::Goes(JoinView::Waiting { pairing_id, ticket: None })
        } else {
            JoinCourse::Goes(view)
        },
        ServerMessage::OfferReady { transfer_id, manifest_digest, .. } => match view {
            JoinView::Joining => JoinCourse::Goes(view),
            JoinView::Waiting { ticket: None, .. } => JoinCourse::Fails(
                ClientError::InvalidState("offer did not include a resume ticket"),
            ),
            JoinView::Waiting { ticket: Some(ticket), .. } => if ticket.transfer_id == transfer_id
                && ticket.manifest_digest == manifest_digest {
                JoinCourse::Offered
            } else {
                JoinCourse::Fails(ClientError::InvalidState("resume ticket does not match offer"))
            },
        },
        ServerMessage::ResumeTicket { pairing_id, role, resume_ticket, .. } => match view {
            JoinView::Joining => JoinCourse::Goes(view),
            JoinView::Waiting { pairing_id: joined, .. } => if role != TransferRole::Accepter
                || pairing_id != joined {
                JoinCourse::Goes(view)
            } else if is_ticket_len(resume_ticket@.len(), limits) {
                JoinCourse::Goes(
                    JoinView::Waiting {
                        pairing_id: joined,
                        ticket: Some(accepter_ticket(message)),
                    },
                )
            } else {
                JoinCourse::Fails(spec_invalid_resume_data(TicketError::TicketLength))
            },
        },
        _ => JoinCourse::Goes(view),
    }
}

/// Whether an offer is the one that a message makes.
pub open spec fn is_offered(view: JoinView, message: ServerMessage, offer: IncomingOffer) -> bool {
    &&& offer.pairing_id == view->pairing_id
    &&& offer.transfer_id == message->OfferReady_transfer_id
    &&& offer.manifest_digest == message->OfferReady_manifest_digest
    &&& offer.file_count == message->file_count
    &&& offer.total_size == message->total_size
    &&& offer.sender_display_name == message->sender_display_name
    &&& Some(offer.resume_ticket@) == view->ticket
    &&& !offer.decided
}

impl View for Join {
    type V = JoinView;

    closed spec fn view(&self) -> JoinView {
        match self.phase {
            JoinPhase::Joining => JoinView::Joining,
            JoinPhase::Waiting { pairing_id, ticket } => JoinView::Waiting {
                pairing_id,
                ticket: optional_ticket(ticket),
            },
        }
    }
}

/// What to do after a message while joining.
pub enum JoinStep {
    /// Wait for the next message.
    Goes(Join),
    /// Decide about this offer.
    Offered(IncomingOffer),
}

impl Join {
    /// How large the parts of a ticket may be.
    pub closed spec fn spec_limits(self) -> TicketLimits {
        self.limits
    }

    /// Begins to join a pairing.
    pub fn new(limits: TicketLimits) -> (join: Self)
        ensures
            join@ == JoinView::Joining,
            join.spec_limits() == limits,
    {
        Join { phase: JoinPhase::Joining, limits }
    }

    /// What to do after a message.
    pub fn on_message(self, message: ServerMessage) -> (result: Result<JoinStep, ClientError>)
        ensures
            match (join_course(self@, self.spec_limits(), message), result) {
                (JoinCourse::Goes(view), Ok(JoinStep::Goes(join))) => join@ == view
                    && join.spec_limits() == self.spec_limits(),
                (JoinCourse::Offered, Ok(JoinStep::Offered(offer))) => is_offered(
                    self@,
                    message,
                    offer,
                ),
                (JoinCourse::Fails(expected), Err(error)) => error == expected,
                _ => false,
            },
    {
        match message {
            ServerMessage::Transfer(control) => Err(transfer_error(control)),
            ServerMessage::PairingJoined { pairing_id } => match self.phase {
                JoinPhase::Joining => Ok(
                    JoinStep::Goes(
                        Join {
                            phase: JoinPhase::Waiting { pairing_id, ticket: None },
                            limits: self.limits,
                        },
                    ),
                ),
                JoinPhase::Waiting { .. } => Ok(JoinStep::Goes(self)),
            },
            ServerMessage::OfferReady {
                transfer_id,
                manifest_digest,
                file_count,
                total_size,
                sender_display_name,
            } => match self.phase {
                JoinPhase::Joining => Ok(JoinStep::Goes(self)),
                JoinPhase::Waiting { pairing_id, ticket } => match ticket {
                    None => Err(
                        ClientError::InvalidState("offer did not include a resume ticket"),
                    ),
                    Some(resume_ticket) => {
                        if !(resume_ticket.transfer_id() == transfer_id) || !(
                        resume_ticket.manifest_digest() == manifest_digest) {
                            return Err(
                                ClientError::InvalidState("resume ticket does not match offer"),
                            );
                        }
                        Ok(
                            JoinStep::Offered(
                                IncomingOffer {
                                    pairing_id,
                                    transfer_id,
                                    manifest_digest,
                                    file_count,
                                    total_size,
                                    sender_display_name,
                                    resume_ticket,
                                    decided: false,
                                },
                            ),
                        )
                    },
                },
            },
            ServerMessage::ResumeTicket {
                pairing_id,
                transfer_id,
                role,
                manifest_digest,
                expires_at,
                resume_ticket,
            } => match self.phase {
                JoinPhase::Joining => Ok(JoinStep::Goes(self)),
                JoinPhase::Waiting { pairing_id: joined, ticket } => {
                    if !(role == TransferRole::Accepter) || !(pairing_id == joined) {
                        return Ok(
                            JoinStep::Goes(
                                Join {
                                    phase: JoinPhase::Waiting { pairing_id: joined, ticket },
                                    limits: self.limits,
                                },
                            ),
                        );
                    }
                    match ResumeTicket::from_wire(
                        pairing_id,
                        transfer_id,
                        TransferRole::Accepter,
                        manifest_digest,
                        expires_at,
                        resume_ticket,
                        self.limits,
                    ) {
                        Ok(ticket) => Ok(
                            JoinStep::Goes(
                                Join {
                                    phase: JoinPhase::Waiting {
                                        pairing_id: joined,
                                        ticket: Some(ticket),
                                    },
                                    limits: self.limits,
                                },
                            ),
                        ),
                        Err(error) => Err(error),
                    }
                },
            },
            _ => Ok(JoinStep::Goes(self)),
        }
    }
}

/// An offer that is joined carries a ticket for the transfer and the files that it
/// offers, in the pairing that was joined.
pub proof fn law_offer_comes_with_its_ticket(
    view: JoinView,
    limits: TicketLimits,
    message: ServerMessage,
    offer: IncomingOffer,
)
    requires
        join_course(view, limits, message) is Offered,
        is_offered(view, message, offer),
    ensures
        offer.resume_ticket@.transfer_id == offer.transfer_id,
        offer.resume_ticket@.manifest_digest == offer.manifest_digest,
{
}

/// Why a ticket cannot be used to send files again.
pub open spec fn send_problem(ticket: TicketView, now_millis: u64) -> Option<ClientError> {
    if ticket.role != TransferRole::Offerer {
        Some(ClientError::InvalidState("resume ticket is not for sending"))
    } else if now_millis >= ticket.expires_at_millis {
        Some(ClientError::ResumeTicketExpired)
    } else if ticket.manifest is None {
        Some(ClientError::InvalidState("sender manifest is missing from resume ticket"))
    } else {
        None
    }
}

/// Whether a ticket can be used to send files again.
pub fn check_resume_send(ticket: &ResumeTicket, now_millis: u64) -> (result: Result<
    (),
    ClientError,
>)
    ensures
        match result {
            Ok(()) => send_problem(ticket@, now_millis) is None,
            Err(error) => send_problem(ticket@, now_millis) == Some(error),
        },
{
    if !(ticket.role() == TransferRole::Offerer) {
        return Err(ClientError::InvalidState("resume ticket is not for sending"));
    }
    if ticket.is_expired_at(now_millis) {
        return Err(ClientError::ResumeTicketExpired);
    }
    if ticket.manifest().is_none() {
        return Err(ClientError::InvalidState("sender manifest is missing from resume ticket"));
    }
    Ok(())
}

/// Whether a ticket can be used to receive files again.
pub fn check_resume_receive(ticket: &ResumeTicket, now_millis: u64) -> (result: Result<
    (),
    ClientError,
>)
    ensures
        match result {
            Ok(()) => ticket@.role == TransferRole::Accepter && now_millis
                < ticket@.expires_at_millis,
            Err(error) => if ticket@.role != TransferRole::Accepter {
                error == ClientError::InvalidState("resume ticket is not for receiving")
            } else {
                now_millis >= ticket@.expires_at_millis && error
                    == ClientError::ResumeTicketExpired
            },
        },
{
    if !(ticket.role() == TransferRole::Accepter) {
        return Err(ClientError::InvalidState("resume ticket is not for receiving"));
    }
    if ticket.is_expired_at(now_millis) {
        return Err(ClientError::ResumeTicketExpired);
    }
    Ok(())
}

/// The first file with this path, from the one at `from` on.
pub open spec fn path_at(entries: Seq<EntryView>, path: Seq<char>, from: int) -> Option<int>
    decreases entries.len() - from,
{
    if from < 0 || from >= entries.len() {
        None
    } else if entries[from].relative_path == path {
        Some(from)
    } else {
        path_at(entries, path, from + 1)
    }
}

/// What is wrong with the files that are there, for the first of the expected files
/// from the one at `from` on for which something is.
pub open spec fn files_problem(
    expected: Seq<EntryView>,
    actual: Seq<EntryView>,
    from: int,
) -> Option<&'static str>
    decreases expected.len() - from,
{
    if from < 0 || from >= expected.len() {
        None
    } else {
        match path_at(actual, expected[from].relative_path, 0) {
            None => Some("resume source file is missing"),
            Some(position) => if actual[position].size != expected[from].size
                || actual[position].content_hash != expected[from].content_hash {
                Some("resume source file changed")
            } else {
                files_problem(expected, actual, from + 1)
            },
        }
    }
}

/// What is wrong with the files that are there.
pub open spec fn sources_problem(
    expected: ManifestView,
    expected_size: u64,
    actual: ManifestView,
    actual_size: u64,
) -> Option<&'static str> {
    if expected.entries.len() != actual.entries.len() || expected_size != actual_size {
        Some("resume source manifest does not match")
    } else {
        files_problem(expected.entries, actual.entries, 0)
    }
}

/// The place of the first file with this path.
fn position_of(entries: &Vec<ManifestEntry>, path: &String) -> (position: Option<usize>)
    ensures
        match position {
            Some(position) => path_at(entry_views(entries@), path@, 0) == Some(position as int)
                && position < entries@.len(),
            None => path_at(entry_views(entries@), path@, 0) is None,
        },
{
    let mut index: usize = 0;
    while index < entries.len()
        invariant
            index <= entries@.len(),
            path_at(entry_views(entries@), path@, 0) == path_at(
                entry_views(entries@),
                path@,
                index as int,
            ),
        decreases entries@.len() - index,
    {
        if entries[index].relative_path == *path {
            return Some(index);
        }
        index = index + 1;
    }
    None
}

/// Whether the files that are there are those that are expected: as many, as
/// large together, and each with the size and the digest it is to have.
pub fn validate_resume_sources(
    expected: &Manifest,
    expected_size: u64,
    actual: &Manifest,
    actual_size: u64,
) -> (result: Result<(), ClientError>)
    ensures
        match result {
            Ok(()) => sources_problem(expected@, expected_size, actual@, actual_size) is None,
            Err(error) => sources_problem(expected@, expected_size, actual@, actual_size) is Some
                && error == ClientError::InvalidState(
                sources_problem(expected@, expected_size, actual@, actual_size)->0,
            ),
        },
{
    if expected.file_count() != actual.file_count() || expected_size != actual_size {
        return Err(ClientError::InvalidState("resume source manifest does not match"));
    }
    let mut index: usize = 0;
    while index < expected.entries.len()
        invariant
            index <= expected.entries@.len(),
            expected@.entries.len() == actual@.entries.len(),
            expected_size == actual_size,
            files_problem(expected@.entries, actual@.entries, 0) == files_problem(
                expected@.entries,
                actual@.entries,
                index as int,
            ),
        decreases expected.entries@.len() - index,
    {
        let entry = &expected.entries[index];
        match position_of(&actual.entries, &entry.relative_path) {
            None => {
                return Err(ClientError::InvalidState("resume source file is missing"));
            },
            Some(position) => {
                let found = &actual.entries[position];
                if found.size != entry.size || !(found.content_hash == entry.content_hash) {
                    return Err(ClientError::InvalidState("resume source file changed"));
                }
            },
        }
        index = index + 1;
    }
    Ok(())
}

/// Files that pass are all there as they are expected.
pub proof fn law_checked_sources_are_unchanged(
    expected: Seq<EntryView>,
    actual: Seq<EntryView>,
    from: int,
)
    requires
        0 <= from,
        files_problem(expected, actual, from) is None,
    ensures
        forall|i: int|
            from <= i < expected.len() ==> {
                let position = path_at(actual, (#[trigger] expected[i]).relative_path, 0);
                &&& position is Some
                &&& actual[position->0].size == expected[i].size
                &&& actual[position->0].content_hash == expected[i].content_hash
            },
    decreases expected.len() - from,
{
    if from < expected.len() {
        law_checked_sources_are_unchanged(expected, actual, from + 1);
    }
}

/// What a message says to a request to take up a transfer again: the digest of its
/// files once that is granted.
pub fn reconnect_reply(ticket: &ResumeTicket, message: ServerMessage) -> (result: Result<
    Option<Digest>,
    ClientError,
>)
    ensures
        match message {
            ServerMessage::ResumeAccepted { pairing_id, transfer_id, role, manifest_digest } =>
            result == Ok::<Option<Digest>, ClientError>(
                if pairing_id == ticket@.pairing_id && transfer_id == ticket@.transfer_id && role
                    == ticket@.role {
                    Some(manifest_digest)
                } else {
                    None
                },
            ),
            ServerMessage::Transfer(ControlMessage::TransferError { code, message }) => result
                == Err::<Option<Digest>, ClientError>(ClientError::Server { code, message }),
            _ => result == Ok::<Option<Digest>, ClientError>(None),
        },
{
    match message {
        ServerMessage::ResumeAccepted { pairing_id, transfer_id, role, manifest_digest } => {
            if pairing_id == ticket.pairing_id() && transfer_id == ticket.transfer_id() && role
                == ticket.role() {
                Ok(Some(manifest_digest))
            } else {
                Ok(None)
            }
        },
        ServerMessage::Transfer(ControlMessage::TransferError { code, message }) => Err(
            ClientError::Server { code, message },
        ),
        _ => Ok(None),
    }
}

/// Whether the files that the server knows are those that are sent.
pub fn check_resumed_digest(accepted: Digest, manifest: &Manifest) -> (result: Result<
    (),
    ClientError,
>)
    ensures
        match result {
            Ok(()) => accepted == manifest@.digest,
            Err(error) => accepted != manifest@.digest && error == ClientError::InvalidState(
                "resume manifest digest mismatch",
            ),
        },
{
    if !(accepted == manifest.digest) {
        return Err(ClientError::InvalidState("resume manifest digest mismatch"));
    }
    Ok(())
}

/// The candidates to tell the other side, with their digest. There is nothing to
/// tell if there are none, or if direct paths are not wanted.
pub fn offered_candidates(
    enable_direct: bool,
    found: Result<Vec<Candidate>, ProbeError>,
    codes: KindCodes,
) -> (result: Result<Option<(Vec<Candidate>, [u8; 32])>, ClientError>)
    ensures
        match result {
            Ok(None) => !enable_direct || found == Err::<Vec<Candidate>, ProbeError>(
                ProbeError::NoCandidates,
            ),
            Ok(Some((candidates, digest))) => enable_direct && found == Ok::<
                Vec<Candidate>,
                ProbeError,
            >(candidates) && is_digest(candidates@, codes, digest@),
            Err(error) => enable_direct && found is Err && found->Err_0 != ProbeError::NoCandidates
                && error == ClientError::Probe(found->Err_0),
        },
{
    if !enable_direct {
        return Ok(None);
    }
    match found {
        Ok(candidates) => {
            let digest = candidate_digest(&candidates, codes);
            Ok(Some((candidates, digest)))
        },
        Err(ProbeError::NoCandidates) => Ok(None),
        Err(error) => Err(ClientError::Probe(error)),
    }
}

/// What the server is told of the candidates, if anything.
pub fn candidate_list<C>(
    transfer_id: TransferId,
    enable_direct: bool,
    found: Result<Vec<Candidate>, ProbeError>,
    codes: KindCodes,
) -> (result: Result<Option<Request<C>>, ClientError>)
    ensures
        match result {
            Ok(None) => !enable_direct || found == Err::<Vec<Candidate>, ProbeError>(
                ProbeError::NoCandidates,
            ),
            Ok(Some(Request::CandidateList { transfer_id: named, candidates, digest })) => named
                == transfer_id && enable_direct && found == Ok::<Vec<Candidate>, ProbeError>(
                candidates,
            ) && is_digest(candidates@, codes, digest@),
            Ok(Some(_)) => false,
            Err(error) => enable_direct && found is Err && found->Err_0 != ProbeError::NoCandidates
                && error == ClientError::Probe(found->Err_0),
        },
{
    match offered_candidates(enable_direct, found, codes) {
        Ok(Some((candidates, digest))) => Ok(
            Some(Request::CandidateList { transfer_id, candidates, digest }),
        ),
        Ok(None) => Ok(None),
        Err(error) => Err(error),
    }
}

/// What the server is told of a transfer that the user gives up.
pub fn cancel_request<C>(transfer_id: TransferId) -> (request: Request<C>)
    ensures
        request == (Request::<C>::Cancel { transfer_id, reason_code: 1 }),
{
    Request::Cancel { transfer_id, reason_code: 1 }
}

/// A key for one pairing. Nothing is claimed of its bytes.
pub fn random_key() -> (result: Result<[u8; 32], ClientError>)
    ensures
        result matches Err(error) ==> error == ClientError::RandomnessUnavailable,
{
    match random_bytes::<32>() {
        Ok(key) => Ok(key),
        Err(_) => Err(ClientError::RandomnessUnavailable),
    }
}

/// A name for a transfer. Nothing is claimed of its bytes.
pub fn random_transfer_id() -> (result: Result<TransferId, ClientError>)
    ensures
        result matches Err(error) ==> error == ClientError::RandomnessUnavailable,
{
    match random_bytes::<16>() {
        Ok(bytes) => Ok(Id::from_bytes(bytes)),
        Err(_) => Err(ClientError::RandomnessUnavailable),
    }
}

} // verus!
