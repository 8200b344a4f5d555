//! What requests carry, what replies to them mean, and which sources and sessions are
//! taken.

use vstd::prelude::*;
use vstd::utf8::encode_utf8;

use crate::bytes::{be_bytes, law_be_read_gives_what_was_written, lemma_be_limits, push_be};
use crate::ids::TransferId;
use crate::network_probe::candidate::{Candidate, KindCodes};
use crate::network_probe::check::ProbeConfig;
use crate::network_probe::error::ProbeError;
use crate::text::hex_digit;
use crate::transfer_client::config::{ClientConfig, RejectReason};
use crate::transfer_client::error::ClientError;
use crate::transfer_client::frame::{frame_fin, frame_length, message_length};
use crate::transfer_client::manifest::{Digest, Manifest};
use crate::transfer_client::messages::{
    on_cancel, summary, transfer_error, ControlMessage, ServerMessage, Totals, TransferSummary,
};
use crate::transfer_client::offerer::{Chunk, FileSendInfo, FileSender};
use crate::transfer_client::pairing::{
    cancel_request, candidate_list, check_resumed_digest, offer_ready, offered_candidates,
    pairing_created, reconnect_reply, PairingOffer,
};
use crate::transfer_client::requests::Request;
use crate::transfer_client::resume::{PairingId, ResumeTicket};
use crate::transfer_client::sessions::{
    hex_limit, id_text, is_session, is_transfer_id, law_written_names_are_read,
    list_resume_sessions, parse_transfer_id, session_views, sessions_among, ResumeSession,
    SessionView,
};
use crate::transfer_client::sources::{child_path, classify, PathMetadata, SourceFiles, SourceKind};

verus! {

/// A pairing that the server has made is offered under its own name and until its own
/// time; no other message makes an offer.
pub proof fn law_made_pairing_is_offered(
    message: ServerMessage,
    result: Result<PairingOffer, ClientError>,
    id: PairingId,
    millis: u64,
)
    requires
        call_ensures(pairing_created, (message,), result),
        result is Ok ==> call_ensures(PairingOffer::pairing_id, (&result->Ok_0,), id),
        result is Ok ==> call_ensures(PairingOffer::expires_at_millis, (&result->Ok_0,), millis),
    ensures
        result is Ok <==> message is PairingCreated,
        result is Ok ==> id == message->PairingCreated_pairing_id && millis
            == message->PairingCreated_expires_at,
{
}

/// An offer tells the other side how many files there are, what their list is, how
/// much it is in all, and who sends it.
pub proof fn law_offer_tells_of_its_list<C>(
    transfer_id: TransferId,
    manifest: &Manifest,
    total_size: u64,
    sender_display_name: String,
    request: Request<C>,
    count: u64,
)
    requires
        call_ensures(
            offer_ready::<C>,
            (transfer_id, manifest, total_size, sender_display_name),
            request,
        ),
        call_ensures(Manifest::file_count, (manifest,), count),
    ensures
        request is OfferReady,
        request->OfferReady_transfer_id == transfer_id,
        request->OfferReady_manifest_digest == manifest.digest,
        request->OfferReady_file_count == count,
        manifest.entries@.len() <= u64::MAX ==> count == manifest.entries@.len(),
        request->OfferReady_total_size == total_size,
        request->OfferReady_sender_display_name == sender_display_name,
{
}

/// A reply to a request to go on is this client's only if it names its pairing, its
/// transfer and its role; it then tells the list. An error of the server is one.
pub proof fn law_own_reply_lets_the_transfer_go_on(
    ticket: &ResumeTicket,
    message: ServerMessage,
    result: Result<Option<Digest>, ClientError>,
)
    requires
        call_ensures(reconnect_reply, (ticket, message), result),
    ensures
        message is ResumeAccepted && message->ResumeAccepted_pairing_id == ticket@.pairing_id
            && message->ResumeAccepted_transfer_id == ticket@.transfer_id
            && message->ResumeAccepted_role == ticket@.role ==> result == Ok::<
            Option<Digest>,
            ClientError,
        >(Some(message->ResumeAccepted_manifest_digest)),
        result is Ok && result->Ok_0 is Some ==> {
            &&& message is ResumeAccepted
            &&& message->ResumeAccepted_pairing_id == ticket@.pairing_id
            &&& message->ResumeAccepted_transfer_id == ticket@.transfer_id
            &&& message->ResumeAccepted_role == ticket@.role
            &&& result->Ok_0->0 == message->ResumeAccepted_manifest_digest
        },
        result is Err <==> message is Transfer && message->Transfer_0 is TransferError,
{
}

/// A transfer goes on only with the list it was made with.
pub proof fn law_transfer_goes_on_with_its_own_list(
    accepted: Digest,
    manifest: &Manifest,
    result: Result<(), ClientError>,
)
    requires
        call_ensures(check_resumed_digest, (accepted, manifest), result),
    ensures
        result is Ok <==> accepted == manifest.digest,
{
}

/// Addresses are offered exactly if direct paths are wanted and some were found;
/// they are offered as they were found. That none were found is no failure.
pub proof fn law_found_addresses_are_offered<C>(
    transfer_id: TransferId,
    enable_direct: bool,
    found: Result<Vec<Candidate>, ProbeError>,
    codes: KindCodes,
    offered: Result<Option<(Vec<Candidate>, [u8; 32])>, ClientError>,
    result: Result<Option<Request<C>>, ClientError>,
)
    requires
        call_ensures(offered_candidates, (enable_direct, found, codes), offered),
        call_ensures(candidate_list::<C>, (transfer_id, enable_direct, found, codes), result),
    ensures
        enable_direct && found is Ok ==> {
            &&& offered is Ok
            &&& offered->Ok_0 is Some
            &&& offered->Ok_0 matches Some(pair) && pair.0 == found->Ok_0
            &&& result is Ok
            &&& result->Ok_0 is Some
            &&& result->Ok_0->0 is CandidateList
            &&& result->Ok_0->0->CandidateList_transfer_id == transfer_id
            &&& result->Ok_0->0->CandidateList_candidates == found->Ok_0
        },
        !enable_direct || found == Err::<Vec<Candidate>, ProbeError>(ProbeError::NoCandidates)
            ==> {
            &&& offered is Ok
            &&& offered->Ok_0 is None
            &&& result is Ok
            &&& result->Ok_0 is None
        },
        enable_direct && found is Err && found->Err_0 != ProbeError::NoCandidates ==> offered is Err
            && result is Err,
{
}

/// A cancellation names the transfer that is cancelled.
pub proof fn law_cancellation_names_its_transfer<C>(transfer_id: TransferId, request: Request<C>)
    requires
        call_ensures(cancel_request::<C>, (transfer_id,), request),
    ensures
        request is Cancel,
        request->Cancel_transfer_id == transfer_id,
{
}

/// An error of the server is handed on with its code and its words; nothing else is
/// taken for one.
pub proof fn law_server_error_is_handed_on(control: ControlMessage, error: ClientError)
    requires
        call_ensures(transfer_error, (control,), error),
    ensures
        error is Server <==> control is TransferError,
        control is TransferError ==> error->Server_code == control->TransferError_code
            && error->Server_message == control->TransferError_message,
{
}

/// A summary tells what was transferred.
pub proof fn law_summary_tells_what_was_transferred(
    transfer_id: TransferId,
    totals: Totals,
    told: TransferSummary,
)
    requires
        call_ensures(summary, (transfer_id, totals), told),
    ensures
        told.transfer_id == transfer_id,
        told.completed_files == totals.file_count,
        told.total_size == totals.total_size,
{
}

/// A transfer goes on unless it was just cancelled.
pub proof fn law_cancelled_transfer_ends(
    changed: bool,
    cancelled: bool,
    result: Result<(), ClientError>,
)
    requires
        call_ensures(on_cancel, (changed, cancelled), result),
    ensures
        result is Err <==> changed && cancelled,
        result is Err ==> result->Err_0 == ClientError::Cancelled,
{
}

/// Settings are taken exactly if the name fits, pieces hold something and at most a
/// mebibyte, progress is kept at some time, messages can wait, and checks are set up
/// well.
pub proof fn law_usable_client_settings_are_taken(
    config: &ClientConfig,
    max_display_name_len: usize,
    result: Result<(), &'static str>,
    checks: Result<(), ProbeError>,
)
    requires
        call_ensures(ClientConfig::validate, (config, max_display_name_len), result),
        call_ensures(ProbeConfig::validate, (&config.network,), checks),
    ensures
        result is Ok <==> {
            &&& encode_utf8(config.display_name@).len() <= max_display_name_len
            &&& 1 <= config.chunk_size <= 1_048_576
            &&& config.checkpoint_interval_bytes > 0
            &&& config.control_queue_capacity > 0
            &&& checks is Ok
        },
{
}

/// Reasons for a refusal are told apart by their codes.
pub proof fn law_reasons_are_told_apart(
    reason: RejectReason,
    other: RejectReason,
    code: u16,
    other_code: u16,
)
    requires
        call_ensures(RejectReason::code, (reason,), code),
        call_ensures(RejectReason::code, (other,), other_code),
    ensures
        code == other_code <==> reason == other,
{
}

/// The name of a transfer in digits names that transfer, and only thirty-two
/// hexadecimal digits name one.
pub proof fn law_transfer_is_known_by_its_digits(
    id: TransferId,
    text: String,
    value: &str,
    yes: bool,
    parsed: Option<TransferId>,
    any: &str,
    any_yes: bool,
    any_parsed: Option<TransferId>,
)
    requires
        call_ensures(id_text, (id,), text),
        value@ == text@,
        call_ensures(is_transfer_id, (value,), yes),
        call_ensures(parse_transfer_id, (value,), parsed),
        call_ensures(is_transfer_id, (any,), any_yes),
        call_ensures(parse_transfer_id, (any,), any_parsed),
    ensures
        yes,
        parsed == Some(id),
        any_parsed is Some <==> any_yes,
        any_yes ==> any@.len() == 32 && forall|i: int|
            0 <= i < 32 ==> {
                let c = #[trigger] any@[i];
                '0' <= c <= '9' || 'a' <= c <= 'f' || 'A' <= c <= 'F'
            },
{
    assert(hex_limit(32) == 0x1_0000_0000_0000_0000_0000_0000_0000_0000) by {
        reveal_with_fuel(hex_limit, 33);
    }
    law_written_names_are_read(id.value as nat, 32);
    if any_yes {
        assert forall|i: int| 0 <= i < 32 implies {
            let c = #[trigger] any@[i];
            '0' <= c <= '9' || 'a' <= c <= 'f' || 'A' <= c <= 'F'
        } by {
            assert(hex_digit(any@[i]) is Some);
        }
    }
}

/// What is found among the first `count` is a session there.
proof fn lemma_among(found: Seq<(ResumeSession, bool)>, count: int, session: SessionView)
    requires
        0 <= count <= found.len(),
    ensures
        sessions_among(found, count).contains(session) <==> exists|i: int|
            0 <= i < count && is_session(#[trigger] found[i]) && found[i].0@ == session,
    decreases count,
{
    if count > 0 {
        lemma_among(found, count - 1, session);
        let before = sessions_among(found, count - 1);
        let after = sessions_among(found, count);
        if after.contains(session) {
            let k = choose|k: int| 0 <= k < after.len() && after[k] == session;
            if k < before.len() {
                assert(before[k] == session);
                assert(before.contains(session));
            } else {
                assert(is_session(found[count - 1]));
            }
        }
        if exists|i: int|
            0 <= i < count && is_session(#[trigger] found[i]) && found[i].0@ == session {
            let i = choose|i: int|
                0 <= i < count && is_session(#[trigger] found[i]) && found[i].0@ == session;
            if i == count - 1 {
                assert(after[after.len() - 1] == session);
            } else {
                assert(before.contains(session));
                let k = choose|k: int| 0 <= k < before.len() && before[k] == session;
                assert(after[k] == session);
            }
        }
    }
}

/// The sessions that are listed are those that were found whose directory is named
/// after a transfer: none is left out and none is made up.
pub proof fn law_found_sessions_are_listed(
    found: Vec<(ResumeSession, bool)>,
    sessions: Vec<ResumeSession>,
    session: SessionView,
)
    requires
        call_ensures(list_resume_sessions, (found,), sessions),
    ensures
        (exists|k: int| 0 <= k < sessions@.len() && (#[trigger] sessions@[k])@ == session)
            <==> exists|i: int|
            {
                &&& 0 <= i < found@.len()
                &&& (#[trigger] found@[i]).1
                &&& found@[i].0@ == session
                &&& session.transfer_id.len() == 32
                &&& forall|c: int| 0 <= c < 32 ==> hex_digit(#[trigger] session.transfer_id[c]) is Some
            },
{
    let views = session_views(sessions@);
    let among = sessions_among(found@, found@.len() as int);
    lemma_among(found@, found@.len() as int, session);
    views.to_multiset_ensures();
    among.to_multiset_ensures();
    assert(views.contains(session) <==> among.contains(session)) by {
        assert(views.to_multiset().count(session) == among.to_multiset().count(session));
    }
    if views.contains(session) {
        let k = choose|k: int| 0 <= k < views.len() && views[k] == session;
        assert(sessions@[k]@ == session);
        let i = choose|i: int|
            0 <= i < found@.len() && is_session(#[trigger] found@[i]) && found@[i].0@ == session;
        assert(found@[i].1);
    }
    if exists|k: int| 0 <= k < sessions@.len() && (#[trigger] sessions@[k])@ == session {
        let k = choose|k: int| 0 <= k < sessions@.len() && (#[trigger] sessions@[k])@ == session;
        assert(views[k] == session);
        assert(views.contains(session));
    }
    if exists|i: int|
        {
            &&& 0 <= i < found@.len()
            &&& (#[trigger] found@[i]).1
            &&& found@[i].0@ == session
            &&& session.transfer_id.len() == 32
            &&& forall|c: int| 0 <= c < 32 ==> hex_digit(#[trigger] session.transfer_id[c]) is Some
        } {
        let i = choose|i: int|
            {
                &&& 0 <= i < found@.len()
                &&& (#[trigger] found@[i]).1
                &&& found@[i].0@ == session
                &&& session.transfer_id.len() == 32
                &&& forall|c: int| 0 <= c < 32 ==> hex_digit(#[trigger] session.transfer_id[c])
                    is Some
            };
        assert(is_session(found@[i]));
        assert(among.contains(session));
        assert(views.contains(session));
    }
}

/// Only files and directories are taken as sources, never what links to another place.
pub proof fn law_links_are_no_sources(
    metadata: PathMetadata,
    result: Result<SourceKind, ClientError>,
)
    requires
        call_ensures(classify, (metadata,), result),
    ensures
        metadata.is_symlink ==> result is Err,
        result is Ok <==> !metadata.is_symlink && (metadata.is_file || metadata.is_dir),
        result is Ok && metadata.is_file ==> result->Ok_0 == SourceKind::File,
        result is Ok && !metadata.is_file ==> result->Ok_0 == SourceKind::Directory,
{
}

/// A source is found again where it was put, and none is put there twice.
pub proof fn law_source_is_found_where_it_was_put(
    files: &mut SourceFiles,
    relative: String,
    result: Result<usize, ClientError>,
    found: Result<usize, ClientError>,
    again: &mut SourceFiles,
    same: String,
    second: Result<usize, ClientError>,
)
    requires
        call_ensures(SourceFiles::insert, (files, relative), result),
        call_ensures(SourceFiles::source_of, (final(files), &relative), found),
        *old(again) == *final(files),
        same@ == relative@,
        call_ensures(SourceFiles::insert, (again, same), second),
    ensures
        result is Ok ==> result->Ok_0 == old(files)@.len(),
        result is Ok <==> !old(files)@.contains(relative@),
        found is Ok,
        final(files)@[found->Ok_0 as int] == relative@,
        second is Err,
        final(again)@ == final(files)@,
{
    if result is Ok {
        assert(final(files)@[old(files)@.len() as int] == relative@);
        assert(final(files)@.contains(relative@));
    }
}

/// What lies in a directory is named after it.
pub proof fn law_child_is_named_after_its_directory(relative: &str, name: &str, path: String)
    requires
        call_ensures(child_path, (relative, name), path),
    ensures
        path@.len() == relative@.len() + 1 + name@.len(),
        path@.subrange(0, relative@.len() as int) == relative@,
        path@[relative@.len() as int] == '/',
        path@.subrange(relative@.len() as int + 1, path@.len() as int) == name@,
{
    reveal_strlit("/");
    assert(path@.subrange(0, relative@.len() as int) =~= relative@);
    assert(path@.subrange(relative@.len() as int + 1, path@.len() as int) =~= name@);
}

/// A length that was written is read, if it is within the limits.
pub proof fn law_written_length_is_read(
    bytes: &mut Vec<u8>,
    length: u32,
    whole: &[u8],
    shortest: usize,
    longest: usize,
    message: Result<usize, ClientError>,
    frame: Result<usize, ClientError>,
)
    requires
        old(bytes)@.len() == 0,
        call_ensures(push_be, (bytes, length as u128, 4), ()),
        whole@ == final(bytes)@,
        call_ensures(message_length, (whole, shortest, longest), message),
        call_ensures(frame_length, (whole,), frame),
    ensures
        message is Ok <==> shortest <= length <= longest,
        message is Ok ==> message->Ok_0 == length,
        frame is Ok ==> frame->Ok_0 == length,
        length == 0 ==> frame is Ok,
{
    lemma_be_limits();
    law_be_read_gives_what_was_written(length as nat, 4);
    assert(whole@ =~= be_bytes(length as nat, 4));
}

/// The mark of the end of a file is one or nothing.
pub proof fn law_mark_of_the_end_is_one_or_nothing(byte: u8, result: Result<bool, ClientError>)
    requires
        call_ensures(frame_fin, (byte,), result),
    ensures
        byte == 0 ==> result == Ok::<bool, ClientError>(false),
        byte == 1 ==> result == Ok::<bool, ClientError>(true),
        byte > 1 ==> result is Err,
{
}

/// A file is sent piece by piece until all of it was sent: after a piece there is
/// less to send, and after the last nothing.
pub proof fn law_pieces_send_the_file(
    info: FileSendInfo,
    chunk_size: usize,
    first: FileSender,
    sender: &mut FileSender,
    chunk: Chunk,
    next: Option<Chunk>,
)
    requires
        chunk_size > 0,
        call_ensures(FileSender::new, (info, chunk_size), first),
        old(sender).is_valid(),
        call_ensures(FileSender::next, (old(sender),), Some(chunk)),
        call_ensures(FileSender::advance, (sender, chunk), ()),
        call_ensures(FileSender::next, (final(sender),), next),
    ensures
        first.sent == 0,
        first.remaining_size == info.remaining_size,
        final(sender).sent == old(sender).sent + chunk.amount,
        final(sender).sent > old(sender).sent,
        final(sender).remaining_size == old(sender).remaining_size,
        chunk.fin <==> next is None,
        next is None <==> final(sender).sent == final(sender).remaining_size,
{
}

} // verus!
