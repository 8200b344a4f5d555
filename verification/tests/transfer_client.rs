//! Behaviour of tickets, frames and the decisions of the two sides of a transfer.

use udp_transfer::ids::Id;
use udp_transfer::net::{IpAddr, SocketAddr};
use udp_transfer::network_probe::{Candidate, CandidateKind, KindCodes, PathKind, ProbeError};
use udp_transfer::transfer_client::accepter::FileReceiver;
use udp_transfer::transfer_client::frame::{
    encode_data_frame, frame_fin, frame_length, message_length, parse_data_frame,
};
use udp_transfer::transfer_client::messages::{on_cancel, publish_event};
use udp_transfer::transfer_client::offerer::file_to_send;
use udp_transfer::transfer_client::pairing::{
    cancel_request, candidate_list, check_resume_receive, check_resume_send, check_resumed_digest,
    offer_ready, offered_candidates, pairing_created, random_key, random_transfer_id,
    reconnect_reply, validate_resume_sources,
};
use udp_transfer::transfer_client::resume::encode_blob;
use udp_transfer::transfer_client::sessions::{id_text, is_transfer_id, parse_transfer_id};
use udp_transfer::transfer_client::sources::{child_path, classify, PathMetadata};
use udp_transfer::transfer_client::ticket_reader::read_blob;
use udp_transfer::transfer_client::{
    cleanup_resume_session, list_resume_sessions, Accepter, AccepterAction, AccepterPhase, Chunk,
    ClientConfig, ClientError, ControlMessage, DataFrame, Digest, FileMetadata, FileReceiveInfo,
    FileSendInfo, FileSender, HashAlgorithm, IncomingOffer, IoKind, Join, JoinStep, Manifest,
    ManifestEntry, Offerer, OffererAction, OverwritePolicy, PairingOffer, PairingOptions,
    ReceiveOptions, RejectReason, Request, Resume, ResumeSend, ResumeSession, ResumeStep,
    ResumeTicket, RoleCodes, ServerMessage, SessionEvent, SourceFiles, SourceKind, TicketError,
    TicketLimits, Totals, TransferEvent, TransferRole,
};

const LIMITS: TicketLimits = TicketLimits { ticket: 256, files: 1_000, path: 4_096 };
const CODES: RoleCodes = RoleCodes { offerer: 1, accepter: 2 };

fn id(byte: u8) -> Id {
    Id::from_bytes([byte; 16])
}

fn digest(byte: u8) -> Digest {
    Digest::new(HashAlgorithm::Blake3, [byte; 32])
}

fn entry(byte: u8, path: &str, size: u64) -> ManifestEntry {
    ManifestEntry {
        file_id: id(byte),
        relative_path: path.to_owned(),
        size,
        content_hash: digest(byte + 1),
        metadata: FileMetadata { modified_time_unix_seconds: Some(7), mode: Some(0o600) },
    }
}

fn manifest() -> Manifest {
    Manifest { digest: digest(4), entries: vec![entry(5, "folder/file.bin", 3)] }
}

fn wire_ticket(role: TransferRole, expires: u64) -> ResumeTicket {
    ResumeTicket::from_wire(id(8), id(3), role, digest(4), expires, vec![9; 32], LIMITS).unwrap()
}

#[test]
fn resume_ticket_round_trips_and_is_stored_atomically() {
    let ticket = wire_ticket(TransferRole::Offerer, u64::MAX).with_manifest(manifest());

    let encoded = ticket.encode(CODES);
    assert_eq!(ResumeTicket::decode(&encoded, LIMITS, CODES).unwrap(), ticket);
    assert_eq!(ResumeTicket::load_from(&encoded, id(3), LIMITS, CODES).unwrap(), ticket);
}

#[test]
fn malformed_resume_ticket_is_rejected_without_large_allocation() {
    let mut bytes = b"UDPRSM01".to_vec();
    bytes.push(1);
    bytes.extend_from_slice(&[0; 32]);
    bytes.push(0xff);
    assert!(ResumeTicket::decode(&bytes, LIMITS, CODES).is_err());
}

#[test]
fn each_defect_of_a_ticket_is_named() {
    let good = wire_ticket(TransferRole::Accepter, 7).encode(CODES);
    let message = |bytes: &[u8]| match ResumeTicket::decode(bytes, LIMITS, CODES) {
        Err(ClientError::Io { kind: IoKind::InvalidData, message }) => message,
        other => panic!("unexpected answer: {other:?}"),
    };
    let changed = |place: usize, value: u8| {
        let mut bytes = good.clone();
        bytes[place] = value;
        bytes
    };
    assert_eq!(message(&good[..good.len() - 1]), "resume ticket 数据截断");
    assert_eq!(message(&changed(0, b'X')), "resume ticket 版本或 magic 无效");
    assert_eq!(message(&changed(8, 2)), "resume ticket 版本或 magic 无效");
    assert_eq!(message(&changed(41, 9)), "transfer role");
    assert_eq!(message(&changed(42, 3)), "resume ticket hash 算法无效");
    assert_eq!(message(&changed(84, 1)), "resume ticket 字段过大");
    assert_eq!(message(&changed(good.len() - 1, 2)), "manifest 标记无效");
    let mut longer = good.clone();
    longer.push(0);
    assert_eq!(message(&longer), "resume ticket 包含尾部数据");
    let mut huge = good.clone();
    huge.resize(16 * 1024 * 1024 + 1, 0);
    assert_eq!(message(&huge), "resume ticket 文件过大");
    let mut empty = good[..83].to_vec();
    empty.extend_from_slice(&[0, 0, 0, 0, 0]);
    assert_eq!(message(&empty), "resume ticket 长度无效");
    let mut crowded = good[..good.len() - 1].to_vec();
    crowded.extend_from_slice(&[1, 0, 0, 4, 0]);
    assert_eq!(message(&crowded), "manifest 文件数超限");

    let full = wire_ticket(TransferRole::Offerer, 7).with_manifest(manifest()).encode(CODES);
    let path_at = good.len() + 4 + 16 + 4;
    let mut unreadable = full.clone();
    unreadable[path_at] = 0xff;
    assert_eq!(message(&unreadable), "resume ticket 路径不是 UTF-8");
    let mut strange = full.clone();
    let flag = full.len() - 14;
    assert_eq!(full[flag], 1);
    strange[flag] = 5;
    assert_eq!(message(&strange), "resume ticket metadata 无效");

    assert!(matches!(
        ResumeTicket::load_from(&good, id(4), LIMITS, CODES),
        Err(ClientError::Io { message: "resume ticket 的 transfer_id 不匹配", .. })
    ));
    assert!(matches!(
        ResumeTicket::from_wire(id(8), id(3), TransferRole::Offerer, digest(4), 1, vec![], LIMITS),
        Err(ClientError::Io { message: "resume ticket 长度无效", .. })
    ));
}

#[test]
fn tickets_without_files_and_with_times_before_the_epoch_are_kept() {
    let bare = wire_ticket(TransferRole::Accepter, 0);
    let read = ResumeTicket::decode(&bare.encode(CODES), LIMITS, CODES).unwrap();
    assert_eq!(read, bare);
    assert!(bare.is_expired());
    assert!(!wire_ticket(TransferRole::Accepter, u64::MAX).is_expired());
    assert!(wire_ticket(TransferRole::Accepter, 5).is_expired_at(5));
    assert!(!wire_ticket(TransferRole::Accepter, 5).is_expired_at(4));

    let mut old = manifest();
    old.entries[0].metadata = FileMetadata { modified_time_unix_seconds: Some(-3), mode: None };
    old.entries[0].relative_path = "目录/文件".to_owned();
    old.entries[0].content_hash = Digest::new(HashAlgorithm::Sha256, [1; 32]);
    let ticket = wire_ticket(TransferRole::Offerer, 9).with_manifest(old);
    let read = ResumeTicket::decode(&ticket.encode(CODES), LIMITS, CODES).unwrap();
    assert_eq!(read, ticket);
    assert_eq!(ticket.copy(), ticket);
}

#[test]
fn cut_and_lengthened_tickets_are_refused() {
    let written = wire_ticket(TransferRole::Offerer, 7).with_manifest(manifest()).encode(CODES);
    for length in 0..written.len() {
        assert!(ResumeTicket::decode(&written[..length], LIMITS, CODES).is_err());
    }
    let mut longer = written.clone();
    longer.push(0);
    assert!(ResumeTicket::decode(&longer, LIMITS, CODES).is_err());
    assert!(ResumeTicket::decode(&written, LIMITS, CODES).is_ok());
}

#[test]
fn parses_transfer_id_hex() {
    let transfer_id = parse_transfer_id("00112233445566778899aabbccddeeff").unwrap();
    assert_eq!(id_text(transfer_id), "00112233445566778899aabbccddeeff");
}

#[test]
fn rejects_invalid_transfer_id() {
    assert!(parse_transfer_id("not-a-transfer-id").is_none());
    assert!(parse_transfer_id("00112233445566778899aabbccddeefg").is_none());
}

#[test]
fn written_names_are_read_back() {
    for value in [0_u128, 1, 0xabc, u128::MAX, 1 << 127] {
        let name = Id { value };
        assert_eq!(parse_transfer_id(&id_text(name)), Some(name));
        assert!(is_transfer_id(&id_text(name)));
    }
    assert_eq!(
        parse_transfer_id("FFFFFFFFFFFFFFFFFFFFFFFFFFFFFFFF"),
        Some(Id { value: u128::MAX })
    );
}

#[test]
fn lists_and_cleans_only_valid_transfer_directories() {
    let found = |name: &str, is_dir: bool| {
        (
            ResumeSession { transfer_id: name.to_owned(), partial_bytes: 7, state_files: 1 },
            is_dir,
        )
    };
    let sessions = list_resume_sessions(vec![
        found("not-a-transfer", true),
        found("00112233445566778899aabbccddeeff", true),
    ]);
    assert_eq!(sessions.len(), 1);
    assert_eq!(sessions[0].state_files, 1);
    assert_eq!(sessions[0].partial_bytes, 7);
    let directories = cleanup_resume_session(&sessions[0].transfer_id).unwrap();
    assert_eq!(
        directories.sessions,
        ".udp-transfer/sessions/00112233445566778899aabbccddeeff"
    );
    assert_eq!(
        directories.partial,
        ".udp-transfer/partial/00112233445566778899aabbccddeeff"
    );
    assert!(matches!(
        cleanup_resume_session("../elsewhere"),
        Err(ClientError::Io { kind: IoKind::InvalidInput, .. })
    ));

    let again = cleanup_resume_session(&sessions[0].transfer_id).unwrap();
    assert_eq!((again.sessions, again.partial), (directories.sessions, directories.partial));

    let names = [
        "ffffffffffffffffffffffffffffffff",
        "0000000000000000000000000000000a",
        "00000000000000000000000000000009",
    ];
    let sessions = list_resume_sessions(vec![
        found(names[0], true),
        found(names[1], true),
        found(names[2], true),
        found("1111111111111111111111111111111f", false),
    ]);
    let listed: Vec<&str> = sessions.iter().map(|session| session.transfer_id.as_str()).collect();
    assert_eq!(listed, vec![names[2], names[1], names[0]]);
}

#[test]
fn frames_are_read_as_they_were_written() {
    let bytes = encode_data_frame(300, true, b"data").unwrap();
    assert_eq!(bytes, [&[0, 0, 0, 0, 0, 0, 1, 44, 1, 0, 0, 0, 4][..], b"data"].concat());
    let mut more = bytes.clone();
    more.extend_from_slice(b"rest");
    let (frame, used) = parse_data_frame(&more).unwrap().unwrap();
    assert_eq!((frame.offset, frame.fin, used), (300, true, bytes.len()));
    assert_eq!(frame.data, b"data");
    assert!(parse_data_frame(&bytes[..7]).unwrap().is_none());
    for cut in 8..bytes.len() {
        assert!(matches!(
            parse_data_frame(&bytes[..cut]),
            Err(ClientError::Io { kind: IoKind::UnexpectedEof, .. })
        ));
    }
    let mut strange = bytes.clone();
    strange[8] = 2;
    assert!(matches!(
        parse_data_frame(&strange),
        Err(ClientError::Io { message: "invalid data frame FIN flag", .. })
    ));
    assert!(matches!(frame_fin(1), Ok(true)));
    assert!(frame_fin(2).is_err());
    assert!(matches!(frame_length(&[0, 0x10, 0, 0]), Ok(0x10_0000)));
    assert!(frame_length(&[0, 0x10, 0, 1]).is_err());
    assert!(encode_data_frame(0, false, &vec![0; 1024 * 1024]).is_ok());
    assert!(matches!(
        encode_data_frame(0, false, &vec![0; 1024 * 1024 + 1]),
        Err(ClientError::Io { message: "data frame is too large", .. })
    ));
    assert!(matches!(message_length(&[0, 0, 0, 20], 20, 100), Ok(20)));
    assert!(message_length(&[0, 0, 0, 19], 20, 100).is_err());
    assert!(message_length(&[0, 0, 0, 101], 20, 100).is_err());
}

#[test]
fn pieces_of_a_file_cover_it_and_end_once() {
    let info = FileSendInfo { file_id: id(1), base_offset: 5, remaining_size: 10 };
    let mut sender = FileSender::new(info, 4);
    let mut chunks = Vec::new();
    while let Some(chunk) = sender.next() {
        chunks.push(chunk);
        sender.advance(chunk);
    }
    assert_eq!(
        chunks,
        vec![
            Chunk { amount: 4, fin: false },
            Chunk { amount: 4, fin: false },
            Chunk { amount: 2, fin: true },
        ]
    );
    let none = FileSender::new(FileSendInfo { remaining_size: 0, ..info }, 4);
    assert_eq!(none.next(), None);
}

fn offerer(direct_only: bool) -> Offerer {
    Offerer { transfer_id: id(3), manifest: manifest(), direct_only, limits: LIMITS }
}

fn ticket_message(transfer: u8, role: TransferRole, ticket: Vec<u8>) -> ServerMessage {
    ServerMessage::ResumeTicket {
        pairing_id: id(8),
        transfer_id: id(transfer),
        role,
        manifest_digest: digest(4),
        expires_at: 99,
        resume_ticket: ticket,
    }
}

#[test]
fn offerer_answers_what_concerns_its_transfer() {
    let side = offerer(false);
    match side.on_message(ticket_message(3, TransferRole::Offerer, vec![1])).unwrap() {
        OffererAction::KeepTicket(ticket) => {
            assert_eq!(ticket.expires_at_millis(), 99);
            assert_eq!(ticket.manifest().unwrap().entries.len(), 1);
        }
        other => panic!("unexpected action: {other:?}"),
    }
    assert!(side.on_message(ticket_message(3, TransferRole::Offerer, vec![])).is_err());
    for other in [
        ticket_message(3, TransferRole::Accepter, vec![1]),
        ticket_message(4, TransferRole::Offerer, vec![1]),
        ServerMessage::PeerReconnected { transfer_id: id(4) },
        ServerMessage::RelayOpen { transfer_id: id(4) },
        ServerMessage::AcceptOffer { transfer_id: id(4), accepted: true },
        ServerMessage::Cancel { transfer_id: id(4) },
        ServerMessage::Path,
        ServerMessage::Pairing,
    ] {
        assert!(matches!(side.on_message(other), Ok(OffererAction::Ignore)));
    }
    assert!(matches!(
        side.on_message(ServerMessage::AcceptOffer { transfer_id: id(3), accepted: false }),
        Ok(OffererAction::Decision { accepted: false })
    ));
    assert!(matches!(
        side.on_message(ServerMessage::PeerReconnected { transfer_id: id(3) }),
        Ok(OffererAction::Reconnect)
    ));
    assert!(matches!(
        side.on_message(ServerMessage::RelayOpen { transfer_id: id(3) }),
        Ok(OffererAction::OpenRelay)
    ));
    assert!(matches!(
        offerer(true).on_message(ServerMessage::RelayOpen { transfer_id: id(3) }),
        Err(ClientError::DirectPathUnavailable)
    ));
    assert!(matches!(
        side.on_message(ServerMessage::Cancel { transfer_id: id(3) }),
        Err(ClientError::Cancelled)
    ));
    let failure = ControlMessage::TransferError { code: 5, message: "no".to_owned() };
    assert_eq!(
        side.on_message(ServerMessage::Transfer(failure)).unwrap_err().message(""),
        "server error 5: no"
    );
    assert!(matches!(
        side.on_message(ServerMessage::Transfer(ControlMessage::Other)),
        Ok(OffererAction::Handle)
    ));
    let begin = ControlMessage::FileBegin {
        file_id: id(5),
        data_stream_id: 4,
        base_offset: 1,
        remaining_size: 2,
    };
    let info = Offerer::data_after(&begin).unwrap();
    assert_eq!(info, FileSendInfo { file_id: id(5), base_offset: 1, remaining_size: 2 });
    assert!(Offerer::data_after(&ControlMessage::ManifestEnd).is_none());
    assert!(matches!(file_to_send(&manifest(), info), Ok(Some(0))));
    assert!(matches!(
        file_to_send(&manifest(), FileSendInfo { file_id: id(6), ..info }),
        Err(ClientError::InvalidState("manifest entry missing"))
    ));
    assert!(matches!(
        file_to_send(&manifest(), FileSendInfo { remaining_size: 0, ..info }),
        Ok(None)
    ));
    let totals = Totals { file_count: 1, total_size: 3 };
    assert!(side.finished(false, totals).is_none());
    let summary = side.finished(true, totals).unwrap();
    assert_eq!((summary.completed_files, summary.total_size), (1, 3));
    assert_eq!((summary.path_kind, summary.relay_used), (PathKind::Relay, true));
    assert!(Offerer::flushes_first(false));
}

#[test]
fn accepter_goes_through_a_transfer() {
    let mut side = Accepter::new(id(3), false);
    let totals = Some(Totals { file_count: 1, total_size: 3 });
    let control = |control| ServerMessage::Transfer(control);
    assert!(matches!(
        side.on_message(control(ControlMessage::ManifestEnd), false),
        Ok(AccepterAction::Handle)
    ));
    assert!(matches!(side.on_handled(true, true), Ok(AccepterAction::Accept)));
    assert_eq!(side.on_accepted(), AccepterAction::Flush);
    assert!(matches!(side.on_flushed(false, totals), Ok(AccepterAction::Listen)));

    let query = ControlMessage::ResumeQuery { file_id: id(5), content_hash: digest(6), size: 3 };
    assert!(matches!(
        side.on_message(control(query), true),
        Ok(AccepterAction::AnswerQuery { size: 3, .. })
    ));
    assert!(matches!(side.on_handled(false, true), Ok(AccepterAction::Flush)));
    assert!(matches!(side.on_flushed(false, totals), Ok(AccepterAction::Listen)));

    let begin = ControlMessage::FileBegin {
        file_id: id(5),
        data_stream_id: 4,
        base_offset: 1,
        remaining_size: 2,
    };
    side.on_message(control(begin), true).unwrap();
    side.on_handled(false, true).unwrap();
    let info =
        FileReceiveInfo { file_id: id(5), stream_id: 4, base_offset: 1, remaining_size: 2 };
    assert!(matches!(
        side.on_flushed(false, totals),
        Ok(AccepterAction::Receive(found)) if found == info
    ));
    assert_eq!(side.on_received(), AccepterAction::Flush);
    assert!(matches!(
        side.on_flushed(true, totals),
        Ok(AccepterAction::Finish(summary)) if summary.completed_files == 1
    ));
    assert_eq!(side.phase, AccepterPhase::Done);
}

#[test]
fn accepter_refuses_what_it_cannot_do() {
    let mut side = Accepter::new(id(3), true);
    assert!(matches!(
        side.on_message(ServerMessage::RelayOpen { transfer_id: id(3) }, false),
        Err(ClientError::DirectPathUnavailable)
    ));
    assert!(matches!(
        side.on_message(ServerMessage::RelayOpen { transfer_id: id(4) }, false),
        Ok(AccepterAction::Listen)
    ));
    assert!(matches!(
        side.on_message(ServerMessage::PeerReconnected { transfer_id: id(3) }, false),
        Ok(AccepterAction::Listen)
    ));
    assert!(matches!(
        side.on_message(ServerMessage::PeerReconnected { transfer_id: id(3) }, true),
        Ok(AccepterAction::Reconnect)
    ));
    assert!(matches!(
        side.on_message(ServerMessage::Cancel { transfer_id: id(3) }, true),
        Err(ClientError::Cancelled)
    ));
    side.on_message(ServerMessage::Transfer(ControlMessage::ManifestEnd), false).unwrap();
    assert!(matches!(
        side.on_handled(true, false),
        Err(ClientError::InvalidState("manifest not assembled"))
    ));
    assert!(matches!(side.on_handled(false, false), Ok(AccepterAction::Flush)));
    assert!(matches!(
        side.on_flushed(true, None),
        Err(ClientError::InvalidState("manifest not available"))
    ));
}

#[test]
fn received_pieces_are_stored_until_the_last() {
    let info = FileReceiveInfo { file_id: id(5), stream_id: 4, base_offset: 1, remaining_size: 2 };
    let mut receiver = FileReceiver::new(info);
    assert!(receiver.waits());
    let frame = |fin| Some(DataFrame { offset: 1, fin, data: vec![1] });
    assert!(!receiver.on_frame(frame(false)).unwrap().fin);
    assert!(receiver.waits());
    let chunk = receiver.on_frame(frame(true)).unwrap();
    assert_eq!((chunk.file_id, chunk.stream_id, chunk.offset), (id(5), 4, 1));
    assert!(!receiver.waits());
    let checkpoint = receiver.checkpoint(8, Some(&manifest()));
    assert_eq!((checkpoint.durable_offset, checkpoint.checkpoint_id), (3, 9));
    assert_eq!(checkpoint.state_hash.algorithm, HashAlgorithm::Blake3);
    assert_eq!(receiver.expected(Some(&manifest())).unwrap(), (3, digest(6)));
    assert!(matches!(
        receiver.expected(None),
        Err(ClientError::InvalidState("manifest not available"))
    ));
    let mut broken = FileReceiver::new(info);
    assert!(matches!(
        broken.on_frame(None),
        Err(ClientError::Io { message: "data stream ended before FIN", .. })
    ));
    let missing = FileReceiver::new(FileReceiveInfo { file_id: id(9), ..info });
    assert!(matches!(
        missing.expected(Some(&manifest())),
        Err(ClientError::InvalidState("manifest entry missing"))
    ));
}

fn offer_message(transfer: u8, digest: Digest) -> ServerMessage {
    ServerMessage::OfferReady {
        transfer_id: id(transfer),
        manifest_digest: digest,
        file_count: 2,
        total_size: 30,
        sender_display_name: "sender".to_owned(),
    }
}

fn waiting(messages: Vec<ServerMessage>) -> Join {
    let mut join = Join::new(LIMITS);
    for message in messages {
        join = match join.on_message(message) {
            Ok(JoinStep::Goes(join)) => join,
            _ => panic!("joining should go on"),
        };
    }
    join
}

#[test]
fn joining_waits_for_the_ticket_and_the_offer() {
    let joined = || ServerMessage::PairingJoined { pairing_id: id(8) };
    let join = waiting(vec![
        offer_message(3, digest(4)),
        ServerMessage::Path,
        joined(),
        ticket_message(3, TransferRole::Offerer, vec![1]),
        ticket_message(3, TransferRole::Accepter, vec![1]),
    ]);
    match join.on_message(offer_message(3, digest(4))) {
        Ok(JoinStep::Offered(mut offer)) => {
            assert_eq!((offer.pairing_id(), offer.transfer_id()), (id(8), id(3)));
            assert_eq!((offer.file_count(), offer.total_size()), (2, 30));
            assert_eq!(offer.sender_display_name(), "sender");
            assert_eq!(offer.resume_ticket().transfer_id(), id(3));
            assert_eq!(offer.manifest_digest(), digest(4));
            assert!(offer.decide().is_ok());
            assert!(matches!(
                offer.decide(),
                Err(ClientError::InvalidState("incoming offer already decided"))
            ));
        }
        _ => panic!("the offer should be made"),
    }
    let refused = |join: Join, message| match join.on_message(message) {
        Err(error) => error.message(""),
        Ok(_) => panic!("joining should fail"),
    };
    assert_eq!(
        refused(waiting(vec![joined()]), offer_message(3, digest(4))),
        "invalid client state: offer did not include a resume ticket"
    );
    let ticketed = || {
        waiting(vec![joined(), ticket_message(3, TransferRole::Accepter, vec![1])])
    };
    assert_eq!(
        refused(ticketed(), offer_message(4, digest(4))),
        "invalid client state: resume ticket does not match offer"
    );
    assert_eq!(
        refused(ticketed(), offer_message(3, digest(5))),
        "invalid client state: resume ticket does not match offer"
    );
    assert_eq!(
        refused(
            Join::new(LIMITS),
            ServerMessage::Transfer(ControlMessage::TransferError { code: 1, message: "x".to_owned() })
        ),
        "server error 1: x"
    );
    assert_eq!(
        refused(Join::new(LIMITS), ServerMessage::Transfer(ControlMessage::Other)),
        "invalid client state: unexpected server response"
    );
}

#[test]
fn pairings_are_offered_once() {
    let created = ServerMessage::PairingCreated { pairing_id: id(8), expires_at: 77 };
    let mut offer: PairingOffer = pairing_created(created).unwrap();
    assert_eq!((offer.pairing_id(), offer.expires_at_millis()), (id(8), 77));
    assert!(offer.start().is_ok());
    assert!(matches!(
        offer.start(),
        Err(ClientError::InvalidState("pairing offer already started"))
    ));
    assert!(matches!(
        pairing_created(ServerMessage::Path),
        Err(ClientError::InvalidState("PairingCreated"))
    ));
}

#[test]
fn transfers_are_taken_up_only_with_their_ticket_and_files() {
    let sending = wire_ticket(TransferRole::Offerer, 100);
    assert!(matches!(
        check_resume_send(&wire_ticket(TransferRole::Accepter, 100), 1),
        Err(ClientError::InvalidState("resume ticket is not for sending"))
    ));
    assert!(matches!(check_resume_send(&sending, 100), Err(ClientError::ResumeTicketExpired)));
    assert!(matches!(
        check_resume_send(&sending, 99),
        Err(ClientError::InvalidState("sender manifest is missing from resume ticket"))
    ));
    assert!(check_resume_send(&sending.with_manifest(manifest()), 99).is_ok());
    let receiving = wire_ticket(TransferRole::Accepter, 100);
    assert!(check_resume_receive(&receiving, 99).is_ok());
    assert!(matches!(check_resume_receive(&receiving, 100), Err(ClientError::ResumeTicketExpired)));
    assert!(matches!(
        check_resume_receive(&wire_ticket(TransferRole::Offerer, 100), 1),
        Err(ClientError::InvalidState("resume ticket is not for receiving"))
    ));

    let check = |actual: Manifest, size| {
        validate_resume_sources(&manifest(), 3, &actual, size).err().map(|error| error.message(""))
    };
    assert_eq!(check(manifest(), 3), None);
    assert_eq!(
        check(manifest(), 4).unwrap(),
        "invalid client state: resume source manifest does not match"
    );
    let mut renamed = manifest();
    renamed.entries[0].relative_path = "other".to_owned();
    assert_eq!(check(renamed, 3).unwrap(), "invalid client state: resume source file is missing");
    let mut rewritten = manifest();
    rewritten.entries[0].content_hash = digest(1);
    assert_eq!(check(rewritten, 3).unwrap(), "invalid client state: resume source file changed");

    let accepted = |transfer| ServerMessage::ResumeAccepted {
        pairing_id: id(8),
        transfer_id: id(transfer),
        role: TransferRole::Accepter,
        manifest_digest: digest(4),
    };
    assert!(matches!(reconnect_reply(&receiving, accepted(3)), Ok(Some(found)) if found == digest(4)));
    assert!(matches!(reconnect_reply(&receiving, accepted(4)), Ok(None)));
    assert!(matches!(reconnect_reply(&receiving, ServerMessage::Path), Ok(None)));
    let failure = ControlMessage::TransferError { code: 1, message: String::new() };
    assert!(matches!(
        reconnect_reply(&receiving, ServerMessage::Transfer(failure)),
        Err(ClientError::Server { code: 1, .. })
    ));
    assert!(check_resumed_digest(digest(4), &manifest()).is_ok());
    assert!(check_resumed_digest(digest(5), &manifest()).is_err());
}

#[test]
fn a_ticket_takes_up_its_own_transfer_and_no_other() {
    let grant = |transfer, role, found| ServerMessage::ResumeAccepted {
        pairing_id: id(8),
        transfer_id: id(transfer),
        role,
        manifest_digest: digest(found),
    };
    let sending = || {
        let ticket = wire_ticket(TransferRole::Offerer, 100).with_manifest(manifest());
        let resume = ResumeSend::new(ticket, 99).unwrap();
        assert_eq!(resume.manifest(), &manifest());
        resume.on_sources(3, &manifest(), 3).unwrap()
    };
    match sending().request::<()>(id(7)) {
        Request::ResumeTransfer { pairing_id, transfer_id, role, instance, ticket } => {
            assert_eq!((pairing_id, transfer_id, instance), (id(8), id(3), id(7)));
            assert_eq!((role, ticket), (TransferRole::Offerer, vec![9; 32]));
        }
        _ => panic!("the server should be asked to resume"),
    }
    assert!(matches!(
        sending().on_message(grant(4, TransferRole::Offerer, 4)),
        Ok(ResumeStep::Waits(_))
    ));
    assert!(matches!(
        sending().on_message(grant(3, TransferRole::Accepter, 4)),
        Ok(ResumeStep::Waits(_))
    ));
    assert!(matches!(
        sending().on_message(grant(3, TransferRole::Offerer, 5)),
        Err(ClientError::InvalidState("resume manifest digest mismatch"))
    ));
    assert!(matches!(
        sending().on_message(grant(3, TransferRole::Offerer, 4)),
        Ok(ResumeStep::Granted(ticket)) if ticket.transfer_id() == id(3)
    ));
    let failure = ControlMessage::TransferError { code: 9, message: String::new() };
    assert!(matches!(
        sending().on_message(ServerMessage::Transfer(failure)),
        Err(ClientError::Server { code: 9, .. })
    ));

    let unready = ResumeSend::new(wire_ticket(TransferRole::Offerer, 100), 99);
    assert!(matches!(
        unready,
        Err(ClientError::InvalidState("sender manifest is missing from resume ticket"))
    ));
    let ticket = wire_ticket(TransferRole::Offerer, 100).with_manifest(manifest());
    let changed = ResumeSend::new(ticket, 99).unwrap().on_sources(3, &manifest(), 4);
    assert!(matches!(
        changed,
        Err(ClientError::InvalidState("resume source manifest does not match"))
    ));

    let receiving = Resume::receive(wire_ticket(TransferRole::Accepter, 100), 99).unwrap();
    assert!(matches!(
        receiving.on_message(grant(3, TransferRole::Accepter, 5)),
        Ok(ResumeStep::Granted(_))
    ));
    assert!(matches!(
        Resume::receive(wire_ticket(TransferRole::Accepter, 100), 100),
        Err(ClientError::ResumeTicketExpired)
    ));
}

#[test]
fn the_server_is_told_of_offers_and_decisions() {
    match offer_ready::<()>(id(3), &manifest(), 3, "name".to_owned()) {
        Request::OfferReady {
            transfer_id,
            manifest_digest,
            file_count,
            total_size,
            sender_display_name,
        } => {
            assert_eq!((transfer_id, manifest_digest), (id(3), digest(4)));
            assert_eq!((file_count, total_size, sender_display_name.as_str()), (1, 3, "name"));
        }
        _ => panic!("the offer should be told"),
    }
    let incoming = || IncomingOffer {
        pairing_id: id(8),
        transfer_id: id(3),
        manifest_digest: digest(4),
        file_count: 1,
        total_size: 3,
        sender_display_name: String::new(),
        resume_ticket: wire_ticket(TransferRole::Accepter, 100),
        decided: false,
    };
    let mut options = ReceiveOptions::new("root".to_owned());
    options.target_root_label = "label".to_owned();
    let mut offer = incoming();
    assert!(matches!(
        offer.accept_offer::<()>(&options),
        Ok(Request::AcceptOffer { transfer_id, accepted: true, policy })
            if transfer_id == id(3) && policy == "label"
    ));
    assert!(matches!(
        offer.reject_offer::<()>(RejectReason::User),
        Err(ClientError::InvalidState("incoming offer already decided"))
    ));
    assert!(matches!(
        incoming().reject_offer::<()>(RejectReason::Policy),
        Ok(Request::AcceptOffer { accepted: false, policy, .. }) if policy == "reject:2"
    ));
    assert!(matches!(
        cancel_request::<()>(id(3)),
        Request::Cancel { transfer_id, reason_code: 1 } if transfer_id == id(3)
    ));
}

#[test]
fn candidates_are_told_only_if_there_are_some_and_they_are_wanted() {
    let codes =
        KindCodes { host: 1, routed_lan: 2, server_reflexive: 3, peer_reflexive: 4, relay: 5 };
    let candidate = Candidate {
        id: id(1),
        kind: CandidateKind::Host,
        address: Some(SocketAddr::new(IpAddr::V4(1), 2)),
        priority: 1,
        interface_index: None,
    };
    assert!(matches!(offered_candidates(false, Ok(vec![candidate]), codes), Ok(None)));
    assert!(matches!(offered_candidates(true, Err(ProbeError::NoCandidates), codes), Ok(None)));
    assert!(matches!(
        offered_candidates(true, Err(ProbeError::RandomnessUnavailable), codes),
        Err(ClientError::Probe(ProbeError::RandomnessUnavailable))
    ));
    let (told, _) = offered_candidates(true, Ok(vec![candidate]), codes).unwrap().unwrap();
    assert_eq!(told, vec![candidate]);
    assert!(matches!(candidate_list::<()>(id(3), false, Ok(vec![candidate]), codes), Ok(None)));
    assert!(matches!(
        candidate_list::<()>(id(3), true, Ok(vec![candidate]), codes),
        Ok(Some(Request::CandidateList { transfer_id, candidates, .. }))
            if transfer_id == id(3) && candidates == vec![candidate]
    ));
}

#[test]
fn drawn_names_and_keys_differ() {
    assert_ne!(random_key().unwrap(), random_key().unwrap());
    assert_ne!(random_transfer_id().unwrap(), random_transfer_id().unwrap());
}

#[test]
fn sources_are_files_and_directories_with_paths_of_their_own() {
    let kind = |is_symlink, is_file, is_dir| {
        classify(PathMetadata { is_symlink, is_file, is_dir }).map_err(|error| error.message(""))
    };
    assert_eq!(kind(false, true, false), Ok(SourceKind::File));
    assert_eq!(kind(false, false, true), Ok(SourceKind::Directory));
    assert_eq!(
        kind(true, true, false),
        Err("client I/O error: symbolic links are not allowed".to_owned())
    );
    assert_eq!(
        kind(false, false, false),
        Err("client I/O error: unsupported source file type".to_owned())
    );
    assert_eq!(child_path("folder", "file"), "folder/file");
    let mut files = SourceFiles::new();
    assert!(matches!(files.insert("a".to_owned()), Ok(0)));
    assert!(matches!(files.insert("b".to_owned()), Ok(1)));
    assert!(matches!(
        files.insert("a".to_owned()),
        Err(ClientError::Io { message: "source paths collide", .. })
    ));
    assert!(matches!(files.source_of(&"b".to_owned()), Ok(1)));
    assert!(matches!(
        files.source_of(&"c".to_owned()),
        Err(ClientError::InvalidState("source file mapping missing"))
    ));
}

#[test]
fn clients_are_configured_within_bounds() {
    let good = ClientConfig::default();
    assert_eq!(good.server_addr, SocketAddr::new(IpAddr::v4(127, 0, 0, 1), 41000));
    assert_eq!(good.validate(64), Ok(()));
    assert_eq!(good.validate(3), Err("display_name"));
    let bad = |change: fn(&mut ClientConfig)| {
        let mut config = ClientConfig::default();
        change(&mut config);
        config.validate(64).unwrap_err()
    };
    assert_eq!(bad(|config| config.chunk_size = 0), "chunk_size");
    assert_eq!(bad(|config| config.chunk_size = 1024 * 1024 + 1), "chunk_size");
    assert_eq!(bad(|config| config.checkpoint_interval_bytes = 0), "checkpoint_interval_bytes");
    assert_eq!(bad(|config| config.control_queue_capacity = 0), "control_queue_capacity");
    assert_eq!(bad(|config| config.network.samples = 0), "network probe configuration");
    assert_eq!(PairingOptions::default().requested_ttl_seconds, 0);
    let options = ReceiveOptions::new("here".to_owned());
    assert_eq!(options.overwrite_policy, OverwritePolicy::Ask);
    assert_eq!(options.target_root_label, "default");
    assert_eq!((RejectReason::User.code(), RejectReason::Policy.code()), (1, 2));
    assert_eq!(RejectReason::Policy.policy(), "reject:2");
}

#[test]
fn events_are_passed_on() {
    assert!(matches!(
        publish_event(SessionEvent::Checkpointed { file_id: id(1), durable_offset: 9 }),
        Some(TransferEvent::FileProgress { durable_offset: 9, total_size: 0, .. })
    ));
    assert!(matches!(
        publish_event(SessionEvent::PathSelected { kind: PathKind::Relay }),
        Some(TransferEvent::PathSelected { kind: PathKind::Relay })
    ));
    assert!(publish_event(SessionEvent::Other).is_none());
    assert!(on_cancel(true, false).is_ok());
    assert!(on_cancel(false, true).is_ok());
    assert!(matches!(on_cancel(true, true), Err(ClientError::Cancelled)));
}

#[test]
fn fields_are_read_as_they_were_written() {
    let mut bytes = vec![7_u8, 7];
    encode_blob(&mut bytes, b"field");
    assert_eq!(bytes, [&[7, 7, 0, 0, 0, 5][..], b"field"].concat());
    bytes.push(9);
    assert_eq!(read_blob(&bytes, 2, 5), Ok((b"field".to_vec(), 11)));
    assert_eq!(read_blob(&bytes, 2, 4), Err(TicketError::FieldTooLarge));
    assert_eq!(read_blob(&bytes[..10], 2, 5), Err(TicketError::Truncated));
    assert_eq!(read_blob(&bytes[..5], 2, 5), Err(TicketError::Truncated));
    let mut empty = Vec::new();
    encode_blob(&mut empty, b"");
    assert_eq!(read_blob(&empty, 0, 0), Ok((Vec::new(), 4)));
}
