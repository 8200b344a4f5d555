//! Tickets with which a transfer that broke off is taken up again.

use vstd::prelude::*;

use crate::bytes::{append_bytes, be_bytes, copy_bytes, push_be};
use crate::ids::{Id, TransferId};
use crate::network_probe::unix_millis;
use crate::transfer_client::error::{ClientError, IoKind};
use crate::transfer_client::manifest::{
    entry_views, Digest, FileMetadata, HashAlgorithm, Manifest, ManifestEntry,
};
use crate::transfer_client::ticket_format::{
    blob_bytes, digest_bytes, entries_bytes, entry_bytes, magic, manifest_bytes, metadata_bytes,
    mode_bits, optional_bytes, role_code, ticket_bytes, ticket_of, time_bits, RESUME_TICKET_VERSION,
    RoleCodes, TicketError, TicketLimits, TicketView, TransferRole,
};
use crate::transfer_client::ticket_reader::{manifest_view, read_ticket};

verus! {

/// Names a pairing.
pub type PairingId = Id;

/// What is needed to take up a transfer again, also by another process. It only
/// allows to take up the transfer it is for, in the same role and with the same
/// files. It stands for no pairing code, nor for who somebody is.
#[derive(Debug, Clone, PartialEq, Eq)]
pub struct ResumeTicket {
    pairing_id: PairingId,
    transfer_id: TransferId,
    role: TransferRole,
    manifest_digest: Digest,
    expires_at_millis: u64,
    ticket: Vec<u8>,
    manifest: Option<Manifest>,
}

impl View for ResumeTicket {
    type V = TicketView;

    closed spec fn view(&self) -> TicketView {
        TicketView {
            pairing_id: self.pairing_id,
            transfer_id: self.transfer_id,
            role: self.role,
            manifest_digest: self.manifest_digest,
            expires_at_millis: self.expires_at_millis,
            ticket: self.ticket@,
            manifest: manifest_view(self.manifest),
        }
    }
}

/// The error that stands for something wrong with the bytes of a ticket.
pub open spec fn spec_invalid_resume_data(error: TicketError) -> ClientError {
    ClientError::Io { kind: IoKind::InvalidData, message: error.spec_message() }
}

/// The error that stands for something wrong with the bytes of a ticket.
pub fn invalid_resume_data(error: TicketError) -> (failure: ClientError)
    ensures
        failure == spec_invalid_resume_data(error),
{
    ClientError::Io { kind: IoKind::InvalidData, message: error.message() }
}

/// Whether what the server gave has a length that it may have.
pub open spec fn is_ticket_len(length: nat, limits: TicketLimits) -> bool {
    0 < length <= limits.ticket
}

impl ResumeTicket {
    /// The ticket that the server gave.
    pub fn from_wire(
        pairing_id: PairingId,
        transfer_id: TransferId,
        role: TransferRole,
        manifest_digest: Digest,
        expires_at_millis: u64,
        ticket: Vec<u8>,
        limits: TicketLimits,
    ) -> (result: Result<Self, ClientError>)
        ensures
            match result {
                Ok(made) => is_ticket_len(ticket@.len(), limits) && made@ == (TicketView {
                    pairing_id,
                    transfer_id,
                    role,
                    manifest_digest,
                    expires_at_millis,
                    ticket: ticket@,
                    manifest: None,
                }),
                Err(error) => !is_ticket_len(ticket@.len(), limits) && error
                    == spec_invalid_resume_data(TicketError::TicketLength),
            },
    {
        if ticket.len() == 0 || ticket.len() > limits.ticket {
            return Err(invalid_resume_data(TicketError::TicketLength));
        }
        Ok(
            ResumeTicket {
                pairing_id,
                transfer_id,
                role,
                manifest_digest,
                expires_at_millis,
                ticket,
                manifest: None,
            },
        )
    }

    /// The ticket with the files of the transfer.
    pub fn with_manifest(self, manifest: Manifest) -> (ticket: Self)
        ensures
            ticket@ == (TicketView { manifest: Some(manifest@), ..self@ }),
    {
        let mut ticket = self;
        ticket.manifest = Some(manifest);
        ticket
    }

    /// The pairing that the transfer is from.
    pub fn pairing_id(&self) -> (id: PairingId)
        ensures
            id == self@.pairing_id,
    {
        self.pairing_id
    }

    /// The transfer.
    pub fn transfer_id(&self) -> (id: TransferId)
        ensures
            id == self@.transfer_id,
    {
        self.transfer_id
    }

    /// The part that this side takes.
    pub fn role(&self) -> (role: TransferRole)
        ensures
            role == self@.role,
    {
        self.role
    }

    /// The digest of the files.
    pub fn manifest_digest(&self) -> (digest: Digest)
        ensures
            digest == self@.manifest_digest,
    {
        self.manifest_digest
    }

    /// When the ticket is no longer good.
    pub fn expires_at_millis(&self) -> (millis: u64)
        ensures
            millis == self@.expires_at_millis,
    {
        self.expires_at_millis
    }

    /// Whether the ticket is no longer good at this time.
    pub fn is_expired_at(&self, now_millis: u64) -> (expired: bool)
        ensures
            expired == (now_millis >= self@.expires_at_millis),
    {
        now_millis >= self.expires_at_millis
    }

    /// Whether the ticket is no longer good now, as the clock shows it.
    pub fn is_expired(&self) -> (expired: bool)
        ensures
            self@.expires_at_millis == 0 ==> expired,
    {
        self.is_expired_at(unix_millis())
    }

    /// The files of the transfer, if the ticket has them.
    pub fn manifest(&self) -> (manifest: Option<&Manifest>)
        ensures
            match manifest {
                Some(manifest) => self@.manifest == Some(manifest@),
                None => self@.manifest is None,
            },
    {
        match &self.manifest {
            Some(manifest) => Some(manifest),
            None => None,
        }
    }

    /// What the server gave.
    pub fn wire_ticket(&self) -> (ticket: Vec<u8>)
        ensures
            ticket@ == self@.ticket,
    {
        copy_bytes(&self.ticket)
    }

    /// The same ticket once more.
    pub fn copy(&self) -> (ticket: ResumeTicket)
        ensures
            ticket@ == self@,
    {
        let manifest: Option<Manifest> = match &self.manifest {
            Some(manifest) => Some(manifest.copy()),
            None => None,
        };
        ResumeTicket {
            pairing_id: self.pairing_id,
            transfer_id: self.transfer_id,
            role: self.role,
            manifest_digest: self.manifest_digest,
            expires_at_millis: self.expires_at_millis,
            ticket: copy_bytes(&self.ticket),
            manifest,
        }
    }

    /// The bytes of the ticket.
    pub fn encode(&self, codes: RoleCodes) -> (bytes: Vec<u8>)
        ensures
            bytes@ == ticket_bytes(self@, codes),
    {
        let mut bytes: Vec<u8> = vec![0x55u8, 0x44, 0x50, 0x52, 0x53, 0x4d, 0x30, 0x31];
        assert(bytes@ =~= magic());
        bytes.push(RESUME_TICKET_VERSION);
        push_be(&mut bytes, self.pairing_id.value, 16);
        push_be(&mut bytes, self.transfer_id.value, 16);
        let code: u8 = match self.role {
            TransferRole::Offerer => codes.offerer,
            TransferRole::Accepter => codes.accepter,
        };
        bytes.push(code);
        proof {
            assert(bytes@ =~= magic() + seq![RESUME_TICKET_VERSION] + be_bytes(
                self.pairing_id.value as nat,
                16,
            ) + be_bytes(self.transfer_id.value as nat, 16) + seq![role_code(self.role, codes)]);
        }
        encode_digest(&mut bytes, self.manifest_digest);
        push_be(&mut bytes, self.expires_at_millis as u128, 8);
        encode_blob(&mut bytes, &self.ticket);
        match &self.manifest {
            Some(manifest) => encode_manifest(&mut bytes, manifest),
            None => {
                bytes.push(0);
                assert(manifest_bytes(self@.manifest) =~= seq![0u8]);
            },
        }
        bytes
    }

    /// The ticket that bytes write down, or what is wrong with them.
    pub fn decode(bytes: &[u8], limits: TicketLimits, codes: RoleCodes) -> (result: Result<
        Self,
        ClientError,
    >)
        ensures
            match result {
                Ok(ticket) => ticket_of(bytes@, limits, codes) == Ok::<TicketView, TicketError>(
                    ticket@,
                ),
                Err(error) => ticket_of(bytes@, limits, codes) is Err && error
                    == spec_invalid_resume_data(ticket_of(bytes@, limits, codes)->Err_0),
            },
    {
        match read_ticket(bytes, limits, codes) {
            Ok(parts) => Ok(
                ResumeTicket {
                    pairing_id: parts.pairing_id,
                    transfer_id: parts.transfer_id,
                    role: parts.role,
                    manifest_digest: parts.manifest_digest,
                    expires_at_millis: parts.expires_at_millis,
                    ticket: parts.ticket,
                    manifest: parts.manifest,
                },
            ),
            Err(error) => Err(invalid_resume_data(error)),
        }
    }

    /// The ticket that the file of a transfer holds, which must be for that
    /// transfer.
    pub fn load_from(
        bytes: &[u8],
        transfer_id: TransferId,
        limits: TicketLimits,
        codes: RoleCodes,
    ) -> (result: Result<Self, ClientError>)
        ensures
            match result {
                Ok(ticket) => ticket_of(bytes@, limits, codes) == Ok::<TicketView, TicketError>(
                    ticket@,
                ) && ticket@.transfer_id == transfer_id,
                Err(error) => match ticket_of(bytes@, limits, codes) {
                    Ok(view) => view.transfer_id != transfer_id && error == (ClientError::Io {
                        kind: IoKind::InvalidData,
                        message: "resume ticket 的 transfer_id 不匹配",
                    }),
                    Err(wrong) => error == spec_invalid_resume_data(wrong),
                },
            },
    {
        match Self::decode(bytes, limits, codes) {
            Ok(ticket) => {
                if !(ticket.transfer_id == transfer_id) {
                    return Err(
                        ClientError::Io {
                            kind: IoKind::InvalidData,
                            message: "resume ticket 的 transfer_id 不匹配",
                        },
                    );
                }
                Ok(ticket)
            },
            Err(error) => Err(error),
        }
    }
}

/// Appends a field: the low thirty-two bits of its length, and its bytes.
pub fn encode_blob(bytes: &mut Vec<u8>, value: &[u8])
    ensures
        final(bytes)@ == old(bytes)@ + blob_bytes(value@),
{
    let ghost before = bytes@;
    push_be(bytes, low_length(value.len()) as u128, 4);
    append_bytes(bytes, value);
    assert(bytes@ =~= before + blob_bytes(value@));
}

/// The low thirty-two bits of a length.
fn low_length(length: usize) -> (low: u32)
    ensures
        low == length as nat as u32,
{
    #[verifier::truncate]
    (length as u32)
}

/// Appends a digest.
fn encode_digest(bytes: &mut Vec<u8>, digest: Digest)
    ensures
        final(bytes)@ == old(bytes)@ + digest_bytes(digest),
{
    let ghost before = bytes@;
    let code: u8 = match digest.algorithm {
        HashAlgorithm::Blake3 => 1,
        HashAlgorithm::Sha256 => 2,
    };
    bytes.push(code);
    push_be(bytes, digest.high, 16);
    push_be(bytes, digest.low, 16);
    assert(bytes@ =~= before + digest_bytes(digest));
}

/// The bits of a time.
fn bits_of(time: i64) -> (bits: u64)
    ensures
        bits == time as u64,
{
    #[verifier::truncate]
    (time as u64)
}

/// Appends what is known of a file besides its contents.
fn encode_metadata(bytes: &mut Vec<u8>, metadata: FileMetadata)
    ensures
        final(bytes)@ == old(bytes)@ + metadata_bytes(metadata),
{
    let ghost before = bytes@;
    match metadata.modified_time_unix_seconds {
        Some(value) => {
            bytes.push(1);
            push_be(bytes, bits_of(value) as u128, 8);
        },
        None => bytes.push(0),
    }
    assert(bytes@ =~= before + optional_bytes(time_bits(metadata.modified_time_unix_seconds), 8));
    let ghost middle = bytes@;
    match metadata.mode {
        Some(value) => {
            bytes.push(1);
            push_be(bytes, value as u128, 4);
        },
        None => bytes.push(0),
    }
    assert(bytes@ =~= middle + optional_bytes(mode_bits(metadata.mode), 4));
    assert(bytes@ =~= before + metadata_bytes(metadata));
}

/// Appends a file.
fn encode_entry(bytes: &mut Vec<u8>, entry: &ManifestEntry)
    ensures
        final(bytes)@ == old(bytes)@ + entry_bytes(entry@),
{
    let ghost before = bytes@;
    push_be(bytes, entry.file_id.value, 16);
    encode_blob(bytes, entry.relative_path.as_str().as_bytes());
    push_be(bytes, entry.size as u128, 8);
    encode_digest(bytes, entry.content_hash);
    encode_metadata(bytes, entry.metadata);
    assert(bytes@ =~= before + entry_bytes(entry@));
}

/// Appends the files of a transfer.
fn encode_manifest(bytes: &mut Vec<u8>, manifest: &Manifest)
    ensures
        final(bytes)@ == old(bytes)@ + manifest_bytes(Some(manifest@)),
{
    let ghost before = bytes@;
    bytes.push(1);
    push_be(bytes, low_length(manifest.entries.len()) as u128, 4);
    let ghost head = bytes@;
    let ghost views = entry_views(manifest.entries@);
    let mut index: usize = 0;
    assert(views.subrange(0, 0) =~= Seq::empty());
    assert(bytes@ =~= head + entries_bytes(views.subrange(0, 0)));
    while index < manifest.entries.len()
        invariant
            index <= manifest.entries@.len(),
            views == entry_views(manifest.entries@),
            bytes@ == head + entries_bytes(views.subrange(0, index as int)),
        decreases manifest.entries@.len() - index,
    {
        let ghost done = views.subrange(0, index as int);
        let ghost more = views.subrange(0, index + 1);
        encode_entry(bytes, &manifest.entries[index]);
        proof {
            assert(more.drop_last() =~= done);
            assert(more.last() == manifest.entries@[index as int]@);
            assert(head + entries_bytes(done) + entry_bytes(more.last()) =~= head + (entries_bytes(
                done,
            ) + entry_bytes(more.last())));
        }
        index = index + 1;
    }
    proof {
        assert(views.subrange(0, views.len() as int) =~= views);
        assert(bytes@ =~= before + manifest_bytes(Some(manifest@)));
    }
}

} // verus!
