//! What the two sides of a transfer make of the messages that concern them.

use vstd::prelude::*;

use crate::ids::{Id, TransferId};
use crate::transfer_client::accepter::{
    Accepter, AccepterAction, AccepterPhase, Checkpoint, DataChunk, FileReceiver,
};
use crate::transfer_client::config::{ReceiveOptions, RejectReason};
use crate::transfer_client::error::{ClientError, IoKind};
use crate::transfer_client::frame::{
    encode_data_frame, law_frame_read_gives_what_was_written, parse_data_frame, DataFrame,
    FrameView,
};
use crate::transfer_client::manifest::{
    entry_at, Digest, EntryView, FileId, HashAlgorithm, Manifest, ManifestEntry,
};
use crate::transfer_client::messages::{
    publish_event, ControlMessage, ServerMessage, SessionEvent, Totals, TransferEvent,
    TransferSummary,
};
use crate::transfer_client::offerer::{
    file_to_send, Chunk, FileSendInfo, FileSender, Offerer, OffererAction,
};
use crate::transfer_client::pairing::{
    check_resume_receive, check_resume_send, files_problem, law_checked_sources_are_unchanged,
    path_at, validate_resume_sources, IncomingOffer, Join, JoinStep, JoinView, PairingOffer,
};
use crate::transfer_client::requests::Request;
use crate::transfer_client::resume::{PairingId, ResumeTicket};
use crate::transfer_client::resuming::{Resume, ResumeStep};
use crate::transfer_client::ticket_format::TransferRole;

verus! {

/// The transfer that a message is about, where it names one.
pub open spec fn transfer_named(message: ServerMessage) -> Option<TransferId> {
    match message {
        ServerMessage::OfferReady { transfer_id, .. } => Some(transfer_id),
        ServerMessage::ResumeTicket { transfer_id, .. } => Some(transfer_id),
        ServerMessage::ResumeAccepted { transfer_id, .. } => Some(transfer_id),
        ServerMessage::PeerReconnected { transfer_id } => Some(transfer_id),
        ServerMessage::RelayOpen { transfer_id } => Some(transfer_id),
        ServerMessage::AcceptOffer { transfer_id, .. } => Some(transfer_id),
        ServerMessage::Cancel { transfer_id } => Some(transfer_id),
        _ => None,
    }
}

/// The decision of the other side about this transfer is handed on as it was made:
/// an acceptance as one, and a refusal as one. Nothing else is handed on as a
/// decision.
pub proof fn law_decision_is_handed_on(
    offerer: &Offerer,
    message: ServerMessage,
    result: Result<OffererAction, ClientError>,
)
    requires
        call_ensures(Offerer::on_message, (offerer, message), result),
    ensures
        message is AcceptOffer && transfer_named(message) == Some(offerer.transfer_id) ==> (
        result matches Ok(OffererAction::Decision { accepted }) && accepted
            == message->AcceptOffer_accepted),
        result matches Ok(OffererAction::Decision { accepted }) ==> message is AcceptOffer
            && transfer_named(message) == Some(offerer.transfer_id) && accepted
            == message->AcceptOffer_accepted,
{
}

/// The sending side goes over the relay that the server opens for its transfer, unless
/// only direct paths will do, which is then an error; and it goes over no other.
pub proof fn law_offerer_takes_its_relay(
    offerer: &Offerer,
    message: ServerMessage,
    result: Result<OffererAction, ClientError>,
)
    requires
        call_ensures(Offerer::on_message, (offerer, message), result),
    ensures
        message is RelayOpen && transfer_named(message) == Some(offerer.transfer_id) ==> if
            offerer.direct_only {
            result matches Err(error) && error is DirectPathUnavailable
        } else {
            result matches Ok(action) && action is OpenRelay
        },
        result matches Ok(OffererAction::OpenRelay) ==> message is RelayOpen && transfer_named(
            message,
        ) == Some(offerer.transfer_id) && !offerer.direct_only,
        result matches Err(ClientError::DirectPathUnavailable) ==> message is RelayOpen
            && transfer_named(message) == Some(offerer.transfer_id) && offerer.direct_only,
{
}

/// The sending side connects again when the other side of its transfer has, and gives
/// up when its transfer is cancelled; for no other transfer does it do either.
pub proof fn law_offerer_reconnects_and_gives_up(
    offerer: &Offerer,
    message: ServerMessage,
    result: Result<OffererAction, ClientError>,
)
    requires
        call_ensures(Offerer::on_message, (offerer, message), result),
    ensures
        (result matches Ok(OffererAction::Reconnect)) <==> message is PeerReconnected
            && transfer_named(message) == Some(offerer.transfer_id),
        (result matches Err(ClientError::Cancelled)) <==> message is Cancel && transfer_named(
            message,
        ) == Some(offerer.transfer_id),
{
}

/// The sending side keeps the ticket that it is given for its transfer and its role,
/// with all that the message says and with the files that it sends. It refuses one
/// that is empty or too long, and keeps no other.
pub proof fn law_offerer_keeps_its_ticket(
    offerer: &Offerer,
    message: ServerMessage,
    result: Result<OffererAction, ClientError>,
)
    requires
        call_ensures(Offerer::on_message, (offerer, message), result),
        message is ResumeTicket,
    ensures
        ({
            let own = transfer_named(message) == Some(offerer.transfer_id)
                && message->ResumeTicket_role == TransferRole::Offerer;
            let length = message->ResumeTicket_resume_ticket@.len();
            match result {
                Ok(OffererAction::KeepTicket(ticket)) => {
                    &&& own
                    &&& 1 <= length <= offerer.limits.ticket
                    &&& ticket@.transfer_id == offerer.transfer_id
                    &&& ticket@.role == TransferRole::Offerer
                    &&& ticket@.pairing_id == message->ResumeTicket_pairing_id
                    &&& ticket@.manifest_digest == message->ResumeTicket_manifest_digest
                    &&& ticket@.expires_at_millis == message->ResumeTicket_expires_at
                    &&& ticket@.ticket == message->ResumeTicket_resume_ticket@
                    &&& ticket@.manifest == Some(offerer.manifest@)
                },
                Ok(OffererAction::Ignore) => !own,
                Ok(_) => false,
                Err(error) => own && (length == 0 || length > offerer.limits.ticket) && (
                error matches ClientError::Io { kind, .. } && kind == IoKind::InvalidData),
            }
        }),
{
}

/// The sending side hands on every message about the course of the transfer but an
/// error, which ends it with the code and the words of the message; and what is about
/// other transfers changes nothing.
pub proof fn law_offerer_handles_its_transfer_only(
    offerer: &Offerer,
    message: ServerMessage,
    result: Result<OffererAction, ClientError>,
)
    requires
        call_ensures(Offerer::on_message, (offerer, message), result),
    ensures
        (result matches Ok(OffererAction::Handle)) <==> (message matches ServerMessage::Transfer(
            control,
        ) && !(control is TransferError)),
        message matches ServerMessage::Transfer(ControlMessage::TransferError { code, message: words })
            ==> (result matches Err(ClientError::Server { code: told, message: said }) && told
            == code && said == words),
        result matches Err(ClientError::Server { code, .. }) ==> (
        message matches ServerMessage::Transfer(ControlMessage::TransferError { code: sent, .. })
            && sent == code),
        transfer_named(message) is Some && transfer_named(message) != Some(offerer.transfer_id)
            ==> (result matches Ok(OffererAction::Ignore)),
{
}

/// The data of a file is sent once the message is that says that the file begins: the
/// part of the file that the message names.
pub proof fn law_data_follows_the_beginning_of_its_file(
    control: &ControlMessage,
    info: Option<FileSendInfo>,
)
    requires
        call_ensures(Offerer::data_after, (control,), info),
    ensures
        info is Some <==> *control is FileBegin,
        info matches Some(part) ==> part.file_id == control->FileBegin_file_id && part.base_offset
            == control->base_offset && part.remaining_size == control->remaining_size,
{
}

/// A file to be sent is found under its name: the first one of that name, if there is
/// any and if anything of it is left to send.
pub proof fn law_file_to_send_is_found_by_its_name(
    manifest: &Manifest,
    info: FileSendInfo,
    result: Result<Option<usize>, ClientError>,
)
    requires
        call_ensures(file_to_send, (manifest, info), result),
    ensures
        info.remaining_size == 0 <==> (result matches Ok(place) && place is None),
        result matches Ok(Some(place)) ==> place < manifest.entries@.len()
            && manifest.entries@[place as int].file_id == info.file_id && forall|i: int|
            0 <= i < place ==> (#[trigger] manifest.entries@[i]).file_id != info.file_id,
        result is Err <==> info.remaining_size > 0 && forall|i: int|
            0 <= i < manifest.entries@.len() ==> (#[trigger] manifest.entries@[i]).file_id
                != info.file_id,
{
    lemma_entry_found(manifest@.entries, info.file_id, 0);
    assert forall|i: int| 0 <= i < manifest.entries@.len() implies (
    #[trigger] manifest.entries@[i]).file_id == manifest@.entries[i].file_id by {}
    if result is Err {
        assert forall|i: int| 0 <= i < manifest.entries@.len() implies (
        #[trigger] manifest.entries@[i]).file_id != info.file_id by {
            assert(manifest@.entries[i].file_id != info.file_id);
        }
    }
    if let Ok(Some(place)) = result {
        assert(manifest@.entries[place as int].file_id == info.file_id);
        assert(manifest.entries@[place as int].file_id == info.file_id);
        assert forall|i: int| 0 <= i < place implies (#[trigger] manifest.entries@[i]).file_id
            != info.file_id by {
            assert(manifest@.entries[i].file_id != info.file_id);
        }
    }
}

/// What searching a file by its name finds.
proof fn lemma_entry_found(entries: Seq<EntryView>, file_id: FileId, from: int)
    requires
        0 <= from <= entries.len(),
    ensures
        match entry_at(entries, file_id, from) {
            Some(place) => {
                &&& from <= place < entries.len()
                &&& entries[place].file_id == file_id
                &&& forall|i: int| from <= i < place ==> (#[trigger] entries[i]).file_id != file_id
            },
            None => forall|i: int|
                from <= i < entries.len() ==> (#[trigger] entries[i]).file_id != file_id,
        },
    decreases entries.len() - from,
{
    if from < entries.len() {
        lemma_entry_found(entries, file_id, from + 1);
    }
}

/// The receiving side goes over the relay that the server opens for its transfer,
/// unless only direct paths will do, which is then an error; it goes over no other.
/// Afterwards it listens on.
pub proof fn law_accepter_takes_its_relay(
    accepter: &mut Accepter,
    message: ServerMessage,
    has_manifest: bool,
    result: Result<AccepterAction, ClientError>,
)
    requires
        old(accepter).phase is Listening,
        call_ensures(Accepter::on_message, (accepter, message, has_manifest), result),
    ensures
        message is RelayOpen && transfer_named(message) == Some(old(accepter).transfer_id) ==> if
            old(accepter).direct_only {
            result matches Err(error) && error is DirectPathUnavailable
        } else {
            result matches Ok(action) && action is OpenRelay
        },
        result matches Ok(AccepterAction::OpenRelay) ==> message is RelayOpen && transfer_named(
            message,
        ) == Some(old(accepter).transfer_id) && !old(accepter).direct_only,
        message is RelayOpen ==> final(accepter).phase is Listening,
        final(accepter).transfer_id == old(accepter).transfer_id,
        final(accepter).direct_only == old(accepter).direct_only,
{
}

/// The receiving side connects again when the other side of its transfer has and the
/// files are known, and gives up when its transfer is cancelled; for no other
/// transfer does it do either.
pub proof fn law_accepter_reconnects_and_gives_up(
    accepter: &mut Accepter,
    message: ServerMessage,
    has_manifest: bool,
    result: Result<AccepterAction, ClientError>,
)
    requires
        old(accepter).phase is Listening,
        call_ensures(Accepter::on_message, (accepter, message, has_manifest), result),
    ensures
        (result matches Ok(AccepterAction::Reconnect)) <==> message is PeerReconnected
            && transfer_named(message) == Some(old(accepter).transfer_id) && has_manifest,
        (result matches Err(ClientError::Cancelled)) <==> message is Cancel && transfer_named(
            message,
        ) == Some(old(accepter).transfer_id),
        transfer_named(message) is Some && transfer_named(message) != Some(
            old(accepter).transfer_id,
        ) ==> (result matches Ok(AccepterAction::Listen)) && *final(accepter) == *old(accepter),
{
}

/// The receiving side answers a question about a file with what was asked, hands on
/// every other message about the course of the transfer but an error, and ends with
/// the code and the words of that.
pub proof fn law_accepter_handles_its_transfer(
    accepter: &mut Accepter,
    control: ControlMessage,
    has_manifest: bool,
    result: Result<AccepterAction, ClientError>,
)
    requires
        old(accepter).phase is Listening,
        call_ensures(
            Accepter::on_message,
            (accepter, ServerMessage::Transfer(control), has_manifest),
            result,
        ),
    ensures
        control matches ControlMessage::TransferError { code, message } ==> (
        result matches Err(ClientError::Server { code: told, message: said }) && told == code
            && said == message) && final(accepter).phase is Listening,
        control matches ControlMessage::ResumeQuery { file_id, content_hash, size } ==> (
        result matches Ok(AccepterAction::AnswerQuery {
            file_id: asked,
            content_hash: hash,
            size: length,
        }) && asked == file_id && hash == content_hash && length == size),
        !(control is TransferError) && !(control is ResumeQuery) ==> (
        result matches Ok(AccepterAction::Handle)),
        result is Ok ==> final(accepter).phase is Handling,
{
}

/// The offer is accepted right after the message that ends the list of files, if a
/// decision is awaited and the files are known; and only then. What was begun is not
/// forgotten over it.
pub proof fn law_offer_is_accepted_at_the_end_of_the_list(
    accepter: &mut Accepter,
    control: ControlMessage,
    has_manifest: bool,
    handled: Result<AccepterAction, ClientError>,
    handling: &mut Accepter,
    awaiting_decision: bool,
    knows_files: bool,
    result: Result<AccepterAction, ClientError>,
)
    requires
        old(accepter).phase is Listening,
        call_ensures(
            Accepter::on_message,
            (accepter, ServerMessage::Transfer(control), has_manifest),
            handled,
        ),
        handled is Ok,
        *old(handling) == *final(accepter),
        call_ensures(
            Accepter::on_handled,
            (handling, awaiting_decision, knows_files),
            result,
        ),
    ensures
        (result matches Ok(AccepterAction::Accept)) <==> control is ManifestEnd
            && awaiting_decision && knows_files,
        result is Err <==> control is ManifestEnd && awaiting_decision && !knows_files,
        !(control is ManifestEnd && awaiting_decision) ==> (
        result matches Ok(AccepterAction::Flush)),
{
}

/// A file that a message says begins is received next: once the message is handled and
/// what the session has to send is sent, with the name, the stream and the part of
/// the file that the message names; unless the transfer is complete then. Where no
/// file begins, none is received.
pub proof fn law_begun_file_is_received(
    accepter: &mut Accepter,
    control: ControlMessage,
    has_manifest: bool,
    handled: Result<AccepterAction, ClientError>,
    handling: &mut Accepter,
    knows_files: bool,
    flushed: Result<AccepterAction, ClientError>,
    flushing: &mut Accepter,
    totals: Option<Totals>,
    result: Result<AccepterAction, ClientError>,
)
    requires
        old(accepter).phase is Listening,
        call_ensures(
            Accepter::on_message,
            (accepter, ServerMessage::Transfer(control), has_manifest),
            handled,
        ),
        handled is Ok,
        *old(handling) == *final(accepter),
        call_ensures(Accepter::on_handled, (handling, false, knows_files), flushed),
        *old(flushing) == *final(handling),
        call_ensures(Accepter::on_flushed, (flushing, false, totals), result),
    ensures
        control is FileBegin ==> (result matches Ok(AccepterAction::Receive(info))
            && info.file_id == control->FileBegin_file_id && info.stream_id
            == control->data_stream_id && info.base_offset == control->base_offset
            && info.remaining_size == control->remaining_size) && final(flushing).phase
            is Receiving,
        !(control is FileBegin) ==> (result matches Ok(AccepterAction::Listen)) && final(flushing).phase is Listening,
        final(flushing).transfer_id == old(accepter).transfer_id,
        final(flushing).direct_only == old(accepter).direct_only,
{
}

/// The transfer ends when it is complete, whatever was begun: with its name and with
/// as many files and bytes as there are to transfer.
pub proof fn law_complete_transfer_ends(
    flushing: &mut Accepter,
    totals: Option<Totals>,
    result: Result<AccepterAction, ClientError>,
)
    requires
        old(flushing).phase is Flushing,
        call_ensures(Accepter::on_flushed, (flushing, true, totals), result),
    ensures
        result is Ok <==> totals is Some,
        result matches Ok(action) ==> (action matches AccepterAction::Finish(summary)
            && summary.transfer_id == old(flushing).transfer_id && summary.completed_files
            == totals->0.file_count && summary.total_size == totals->0.total_size)
            && final(flushing).phase is Done,
        result is Err ==> *final(flushing) == *old(flushing),
{
}

/// After a file is received, or the offer is accepted, what the session has to send is
/// sent before anything else, and a file that was begun is still received afterwards.
pub proof fn law_sending_comes_before_listening(
    receiving: &mut Accepter,
    accepting: &mut Accepter,
    after_file: AccepterAction,
    after_accept: AccepterAction,
)
    requires
        old(receiving).phase is Receiving,
        call_ensures(Accepter::on_received, (receiving,), after_file),
        old(accepting).phase is Accepting,
        call_ensures(Accepter::on_accepted, (accepting,), after_accept),
    ensures
        after_file is Flush,
        after_accept is Flush,
        final(receiving).phase == (AccepterPhase::Flushing { begins: None }),
        final(accepting).phase == (AccepterPhase::Flushing {
            begins: old(accepting).phase->Accepting_begins,
        }),
        final(receiving).transfer_id == old(receiving).transfer_id,
        final(accepting).transfer_id == old(accepting).transfer_id,
{
}

/// The sending side tells of a complete transfer, with its name and with as many files
/// and bytes as there were, and of no other.
pub proof fn law_only_complete_transfers_are_finished(
    offerer: &Offerer,
    complete: bool,
    totals: Totals,
    result: Option<TransferSummary>,
)
    requires
        call_ensures(Offerer::finished, (offerer, complete, totals), result),
    ensures
        result is Some <==> complete,
        result matches Some(summary) ==> summary.transfer_id == offerer.transfer_id
            && summary.completed_files == totals.file_count && summary.total_size
            == totals.total_size,
{
}

/// What is stored of a frame is what came in it, for the file that is received; and
/// pieces are awaited until the last one has come, none if nothing is left.
pub proof fn law_received_piece_is_stored_as_it_came(
    receiver: &mut FileReceiver,
    frame: Option<DataFrame>,
    result: Result<DataChunk, ClientError>,
    waits: bool,
)
    requires
        call_ensures(FileReceiver::on_frame, (receiver, frame), result),
        call_ensures(FileReceiver::waits, (final(receiver),), waits),
    ensures
        result is Ok <==> frame is Some,
        result matches Ok(chunk) ==> {
            &&& chunk.file_id == old(receiver).info.file_id
            &&& chunk.stream_id == old(receiver).info.stream_id
            &&& chunk.offset == frame->0.offset
            &&& chunk.bytes@ == frame->0.data@
            &&& chunk.fin == frame->0.fin
            &&& frame->0.fin ==> !waits
            &&& !frame->0.fin && !old(receiver).saw_fin && old(receiver).info.remaining_size > 0
                ==> waits
        },
        final(receiver).info == old(receiver).info,
        old(receiver).info.remaining_size == 0 ==> !waits,
{
}

/// What is noted when a part of a file has come is where it ends, under a number that
/// is new, for the kind of digest that the list of files has for it.
pub proof fn law_checkpoint_is_the_end_of_the_part(
    receiver: &FileReceiver,
    last_checkpoint_id: u64,
    manifest: Option<&Manifest>,
    checkpoint: Checkpoint,
)
    requires
        call_ensures(
            FileReceiver::checkpoint,
            (receiver, last_checkpoint_id, manifest),
            checkpoint,
        ),
        receiver.info.base_offset + receiver.info.remaining_size <= u64::MAX,
    ensures
        checkpoint.durable_offset - receiver.info.base_offset == receiver.info.remaining_size,
        last_checkpoint_id < u64::MAX ==> checkpoint.checkpoint_id == last_checkpoint_id + 1,
        checkpoint.checkpoint_id >= last_checkpoint_id,
        manifest is None ==> checkpoint.state_hash.algorithm == HashAlgorithm::Blake3,
        manifest matches Some(manifest) ==> {
            let entries = manifest.entries@;
            &&& (forall|i: int|
                0 <= i < entries.len() ==> (#[trigger] entries[i]).file_id
                    != receiver.info.file_id) ==> checkpoint.state_hash.algorithm
                == HashAlgorithm::Blake3
            &&& (exists|i: int|
                0 <= i < entries.len() && (#[trigger] entries[i]).file_id
                    == receiver.info.file_id) ==> exists|i: int|
                0 <= i < entries.len() && (#[trigger] entries[i]).file_id == receiver.info.file_id
                    && checkpoint.state_hash.algorithm == entries[i].content_hash.algorithm
        },
{
    if let Some(manifest) = manifest {
        let views = manifest@.entries;
        lemma_entry_found(views, receiver.info.file_id, 0);
        match entry_at(views, receiver.info.file_id, 0) {
            Some(place) => {
                assert(views[place] == manifest.entries@[place]@);
            },
            None => {
                assert forall|i: int| 0 <= i < manifest.entries@.len() implies (
                #[trigger] manifest.entries@[i]).file_id != receiver.info.file_id by {
                    assert(views[i] == manifest.entries@[i]@);
                }
            },
        }
    }
}

/// A whole file must have the size and the digest that the list of files gives it
/// under its name.
pub proof fn law_file_must_be_as_the_list_says(
    receiver: &FileReceiver,
    manifest: &Manifest,
    result: Result<(u64, Digest), ClientError>,
)
    requires
        call_ensures(FileReceiver::expected, (receiver, Some(manifest)), result),
    ensures
        result matches Ok((size, digest)) ==> exists|i: int|
            0 <= i < manifest.entries@.len() && (#[trigger] manifest.entries@[i]).file_id
                == receiver.info.file_id && manifest.entries@[i].size == size
                && manifest.entries@[i].content_hash == digest,
        result is Err <==> forall|i: int|
            0 <= i < manifest.entries@.len() ==> (#[trigger] manifest.entries@[i]).file_id
                != receiver.info.file_id,
{
    lemma_entry_found(manifest@.entries, receiver.info.file_id, 0);
    assert forall|i: int| 0 <= i < manifest.entries@.len() implies (
    #[trigger] manifest.entries@[i])@ == manifest@.entries[i] by {}
    match entry_at(manifest@.entries, receiver.info.file_id, 0) {
        Some(place) => {
            assert(manifest.entries@[place]@ == manifest@.entries[place]);
        },
        None => {
            assert forall|i: int| 0 <= i < manifest.entries@.len() implies (
            #[trigger] manifest.entries@[i]).file_id != receiver.info.file_id by {
                assert(manifest@.entries[i].file_id != receiver.info.file_id);
            }
        },
    }
}

/// The pieces of a file that are sent one after the other never pass what is left, and
/// the last one says that it is the last.
pub proof fn law_next_piece_fits(
    sender: &FileSender,
    chunk: Option<Chunk>,
)
    requires
        sender.is_valid(),
        call_ensures(FileSender::next, (sender,), chunk),
    ensures
        chunk is Some <==> sender.sent < sender.remaining_size,
        chunk matches Some(piece) ==> {
            &&& 0 < piece.amount <= sender.chunk_size
            &&& sender.sent + piece.amount <= sender.remaining_size
            &&& piece.fin <==> sender.sent + piece.amount == sender.remaining_size
            &&& !piece.fin ==> piece.amount == sender.chunk_size
        },
{
}

/// A frame that is written is read back, whatever follows it on the stream: the same
/// bytes for the same place, and the end of the file where it was marked.
pub proof fn law_written_frame_is_read_back(
    offset: u64,
    fin: bool,
    data: &[u8],
    written: Vec<u8>,
    stream: &[u8],
    more: Seq<u8>,
    read: Result<Option<(DataFrame, usize)>, ClientError>,
)
    requires
        call_ensures(encode_data_frame, (offset, fin, data), Ok(written)),
        stream@ == written@ + more,
        call_ensures(parse_data_frame, (stream,), read),
    ensures
        read matches Ok(Some((frame, used))) && frame.offset == offset && frame.fin == fin
            && frame.data@ == data@ && used == written@.len(),
{
    law_frame_read_gives_what_was_written(FrameView { offset, fin, data: data@ }, more);
}

/// Joining a pairing ends with the offer that is made in it: after the pairing is
/// joined and the ticket for the offered transfer and its files has come, the offer
/// is the one of the message, with that ticket, in that pairing, and undecided.
pub proof fn law_joining_ends_with_the_offer(
    join: Join,
    pairing_id: PairingId,
    joined: Join,
    ticket: ServerMessage,
    waiting: Join,
    offer: ServerMessage,
    result: Result<JoinStep, ClientError>,
)
    requires
        join@ is Joining,
        call_ensures(
            Join::on_message,
            (join, ServerMessage::PairingJoined { pairing_id }),
            Ok(JoinStep::Goes(joined)),
        ),
        ticket is ResumeTicket,
        ticket->ResumeTicket_pairing_id == pairing_id,
        ticket->ResumeTicket_role == TransferRole::Accepter,
        call_ensures(Join::on_message, (joined, ticket), Ok(JoinStep::Goes(waiting))),
        offer is OfferReady,
        call_ensures(Join::on_message, (waiting, offer), result),
    ensures
        result is Ok <==> ticket->ResumeTicket_transfer_id == offer->OfferReady_transfer_id
            && ticket->ResumeTicket_manifest_digest == offer->OfferReady_manifest_digest,
        result matches Ok(step) ==> (step matches JoinStep::Offered(made) && {
            &&& made.pairing_id == pairing_id
            &&& made.transfer_id == offer->OfferReady_transfer_id
            &&& made.manifest_digest == offer->OfferReady_manifest_digest
            &&& made.file_count == offer->file_count
            &&& made.total_size == offer->total_size
            &&& made.sender_display_name@ == offer->sender_display_name@
            &&& made.resume_ticket@.ticket == ticket->ResumeTicket_resume_ticket@
            &&& made.resume_ticket@.expires_at_millis == ticket->ResumeTicket_expires_at
            &&& made.resume_ticket@.role == TransferRole::Accepter
            &&& made.resume_ticket@.pairing_id == pairing_id
            &&& made.resume_ticket@.transfer_id == made.transfer_id
            &&& !made.decided
        }),
{
}

/// While joining, nothing but an offer ends it well, an offer without its ticket is an
/// error, and a ticket that is of another pairing or for the other side is not kept.
pub proof fn law_joining_waits_for_its_own(
    join: Join,
    message: ServerMessage,
    result: Result<JoinStep, ClientError>,
)
    requires
        call_ensures(Join::on_message, (join, message), result),
    ensures
        result matches Ok(JoinStep::Offered(_)) ==> message is OfferReady && join@ is Waiting,
        message is OfferReady && (join@ matches JoinView::Waiting { ticket, .. } && ticket is None)
            ==> result is Err,
        message is Transfer ==> result is Err,
        message matches ServerMessage::Transfer(ControlMessage::TransferError { code, message: words })
            ==> (result matches Err(ClientError::Server { code: told, message: said }) && told
            == code && said == words),
        message is ResumeTicket && (join@ matches JoinView::Waiting { pairing_id, .. } && (
        pairing_id != message->ResumeTicket_pairing_id || message->ResumeTicket_role
            != TransferRole::Accepter)) ==> (result matches Ok(JoinStep::Goes(same)) && same@
            == join@),
        join@ is Joining && !(message is PairingJoined) && !(message is Transfer) ==> (
        result matches Ok(JoinStep::Goes(same)) && same@ == join@),
{
}

/// An offer is decided about once. What the server is told is the transfer that was
/// offered, that it is taken, and where its files go.
pub proof fn law_offer_is_taken_once<C>(
    offer: &mut IncomingOffer,
    options: &ReceiveOptions,
    first: Result<Request<C>, ClientError>,
    decided: &mut IncomingOffer,
    reason: RejectReason,
    second: Result<Request<C>, ClientError>,
)
    requires
        !old(offer).decided,
        call_ensures(IncomingOffer::accept_offer::<C>, (offer, options), first),
        *old(decided) == *final(offer),
        call_ensures(IncomingOffer::reject_offer::<C>, (decided, reason), second),
    ensures
        first matches Ok(Request::AcceptOffer { transfer_id, accepted, policy }) && transfer_id
            == old(offer).transfer_id && accepted && policy@ == options.target_root_label@,
        second is Err,
        final(decided).transfer_id == old(offer).transfer_id,
{
}

/// An offer that is refused is refused: the server is told the transfer and that it is
/// not taken; and it cannot be taken afterwards.
pub proof fn law_refused_offer_cannot_be_taken<C>(
    offer: &mut IncomingOffer,
    reason: RejectReason,
    first: Result<Request<C>, ClientError>,
    decided: &mut IncomingOffer,
    options: &ReceiveOptions,
    second: Result<Request<C>, ClientError>,
)
    requires
        !old(offer).decided,
        call_ensures(IncomingOffer::reject_offer::<C>, (offer, reason), first),
        *old(decided) == *final(offer),
        call_ensures(IncomingOffer::accept_offer::<C>, (decided, options), second),
    ensures
        first matches Ok(Request::AcceptOffer { transfer_id, accepted, .. }) && transfer_id
            == old(offer).transfer_id && !accepted,
        second is Err,
{
}

/// An offer of this side is started once.
pub proof fn law_own_offer_is_started_once(
    offer: &mut PairingOffer,
    first: Result<(), ClientError>,
    started: &mut PairingOffer,
    second: Result<(), ClientError>,
)
    requires
        call_ensures(PairingOffer::start, (offer,), first),
        *old(started) == *final(offer),
        call_ensures(PairingOffer::start, (started,), second),
    ensures
        first is Ok <==> !old(offer)@.started,
        second is Err,
        final(started)@.pairing_id == old(offer)@.pairing_id,
{
}

/// What is asked for with a ticket is what is granted with it: a grant that names the
/// pairing, the transfer and the role of the request lets the transfer of the ticket
/// go on, for a sender if the files are those of the ticket; any other is waited
/// past.
pub proof fn law_granted_request_goes_on<C>(
    resume: Resume,
    instance: Id,
    request: Request<C>,
    message: ServerMessage,
    result: Result<ResumeStep, ClientError>,
)
    requires
        resume.well_formed(),
        call_ensures(Resume::request::<C>, (&resume, instance), request),
        message is ResumeAccepted,
        call_ensures(Resume::on_message, (resume, message), result),
    ensures
        request is ResumeTransfer,
        request->ResumeTransfer_instance == instance,
        ({
            let own = message->ResumeAccepted_pairing_id == request->ResumeTransfer_pairing_id
                && message->ResumeAccepted_transfer_id == request->ResumeTransfer_transfer_id
                && message->ResumeAccepted_role == request->ResumeTransfer_role;
            let same_files = request->ResumeTransfer_role == TransferRole::Accepter
                || resume@.manifest->0.digest == message->ResumeAccepted_manifest_digest;
            match result {
                Ok(ResumeStep::Granted(ticket)) => own && same_files && ticket@ == resume@,
                Ok(ResumeStep::Waits(same)) => !own && same@ == resume@,
                Err(_) => own && !same_files,
            }
        }),
{
}

/// A ticket can be used to send again exactly before it expires, by the side that
/// sends, with the list of its files; and to receive again exactly before it expires,
/// by the side that receives.
pub proof fn law_ticket_is_good_for_its_role_and_time(
    ticket: &ResumeTicket,
    now_millis: u64,
    sending: Result<(), ClientError>,
    receiving: Result<(), ClientError>,
)
    requires
        call_ensures(check_resume_send, (ticket, now_millis), sending),
        call_ensures(check_resume_receive, (ticket, now_millis), receiving),
    ensures
        sending is Ok <==> ticket@.role == TransferRole::Offerer && ticket@.manifest is Some
            && now_millis < ticket@.expires_at_millis,
        receiving is Ok <==> ticket@.role == TransferRole::Accepter && now_millis
            < ticket@.expires_at_millis,
        sending is Err || receiving is Err,
        ticket@.role == TransferRole::Offerer && now_millis >= ticket@.expires_at_millis ==> (
        sending matches Err(error) && error is ResumeTicketExpired),
        ticket@.role == TransferRole::Accepter && now_millis >= ticket@.expires_at_millis ==> (
        receiving matches Err(error) && error is ResumeTicketExpired),
{
}

/// Files that pass for sending again are those of the list: as many, as large
/// together, and each there under its path with its size and its digest.
pub proof fn law_sources_that_pass_are_unchanged(
    expected: &Manifest,
    expected_size: u64,
    actual: &Manifest,
    actual_size: u64,
)
    requires
        call_ensures(
            validate_resume_sources,
            (expected, expected_size, actual, actual_size),
            Ok(()),
        ),
    ensures
        expected_size == actual_size,
        expected.entries@.len() == actual.entries@.len(),
        forall|i: int|
            0 <= i < expected.entries@.len() ==> some_file_is(
                actual,
                #[trigger] expected.entries@[i],
            ),
{
    law_checked_sources_are_unchanged(expected@.entries, actual@.entries, 0);
    assert forall|i: int| 0 <= i < expected.entries@.len() implies some_file_is(
        actual,
        #[trigger] expected.entries@[i],
    ) by {
        let path = expected@.entries[i].relative_path;
        lemma_path_found(actual@.entries, path, 0);
        let place = path_at(actual@.entries, path, 0)->0;
        assert(actual@.entries[place] == actual.entries@[place]@);
    }
}

/// One of the files has the path, the size and the digest of this one.
pub open spec fn some_file_is(
    manifest: &Manifest,
    entry: ManifestEntry,
) -> bool {
    exists|j: int|
        0 <= j < manifest.entries@.len() && (#[trigger] manifest.entries@[j]).relative_path@
            == entry.relative_path@ && manifest.entries@[j].size == entry.size
            && manifest.entries@[j].content_hash == entry.content_hash
}

/// What searching a file by its path finds.
proof fn lemma_path_found(entries: Seq<EntryView>, path: Seq<char>, from: int)
    requires
        0 <= from <= entries.len(),
    ensures
        match path_at(entries, path, from) {
            Some(place) => from <= place < entries.len() && entries[place].relative_path == path
                && forall|i: int|
                from <= i < place ==> (#[trigger] entries[i]).relative_path != path,
            None => forall|i: int|
                from <= i < entries.len() ==> (#[trigger] entries[i]).relative_path != path,
        },
    decreases entries.len() - from,
{
    if from < entries.len() {
        lemma_path_found(entries, path, from + 1);
    }
}

/// Files that have not changed pass for sending again, whatever their order on disk
/// gives, as long as no two have one path.
pub proof fn law_unchanged_sources_pass(
    expected: &Manifest,
    expected_size: u64,
    actual: &Manifest,
    actual_size: u64,
    result: Result<(), ClientError>,
)
    requires
        call_ensures(
            validate_resume_sources,
            (expected, expected_size, actual, actual_size),
            result,
        ),
        expected_size == actual_size,
        expected.entries@.len() == actual.entries@.len(),
        forall|i: int|
            0 <= i < expected.entries@.len() ==> some_file_is(
                actual,
                #[trigger] expected.entries@[i],
            ),
        forall|i: int, j: int|
            0 <= i < j < actual.entries@.len() ==> (#[trigger] actual.entries@[i]).relative_path@
                != (#[trigger] actual.entries@[j]).relative_path@,
    ensures
        result is Ok,
{
    lemma_no_problem(expected, actual, 0);
}

proof fn lemma_no_problem(expected: &Manifest, actual: &Manifest, from: int)
    requires
        0 <= from <= expected.entries@.len(),
        forall|i: int|
            0 <= i < expected.entries@.len() ==> some_file_is(
                actual,
                #[trigger] expected.entries@[i],
            ),
        forall|i: int, j: int|
            0 <= i < j < actual.entries@.len() ==> (#[trigger] actual.entries@[i]).relative_path@
                != (#[trigger] actual.entries@[j]).relative_path@,
    ensures
        files_problem(expected@.entries, actual@.entries, from) is None,
    decreases expected.entries@.len() - from,
{
    if from < expected.entries@.len() {
        lemma_no_problem(expected, actual, from + 1);
        let entry = expected.entries@[from];
        assert(some_file_is(actual, entry));
        let j = choose|j: int|
            0 <= j < actual.entries@.len() && (#[trigger] actual.entries@[j]).relative_path@
                == entry.relative_path@ && actual.entries@[j].size == entry.size
                && actual.entries@[j].content_hash == entry.content_hash;
        assert(actual@.entries[j] == actual.entries@[j]@);
        lemma_path_found(actual@.entries, entry.relative_path@, 0);
        let place = path_at(actual@.entries, entry.relative_path@, 0)->0;
        assert(actual@.entries[place] == actual.entries@[place]@);
        assert(place == j) by {
            if place < j {
                assert(actual.entries@[place].relative_path@
                    != actual.entries@[j].relative_path@);
            } else if j < place {
                assert(actual.entries@[j].relative_path@
                    != actual.entries@[place].relative_path@);
            }
        }
        assert(expected@.entries[from] == entry@);
    }
}

/// What is told of an event is that event: the states, the file and how far it is
/// durable, the way the path goes. Only what nobody outside needs is not told.
pub proof fn law_events_are_told_as_they_are(event: SessionEvent, told: Option<TransferEvent>)
    requires
        call_ensures(publish_event, (event,), told),
    ensures
        told is None <==> event is Other,
        event matches SessionEvent::StateChanged { from, to } ==> (
        told matches Some(TransferEvent::StateChanged { from: was, to: is }) && was == from && is
            == to),
        event matches SessionEvent::Checkpointed { file_id, durable_offset } ==> (
        told matches Some(TransferEvent::FileProgress {
            file_id: of,
            durable_offset: up_to,
            ..
        }) && of == file_id && up_to == durable_offset),
        event matches SessionEvent::PathSelected { kind } ==> (
        told matches Some(TransferEvent::PathSelected { kind: over }) && over == kind),
        event is PathFallback ==> (told matches Some(TransferEvent::PathFallback)),
{
}

} // verus!
