//! How a resume ticket is written down.

use vstd::prelude::*;
use vstd::utf8::{decode_utf8, encode_utf8, valid_utf8};

use crate::bytes::{be_bytes, be_value};
use crate::ids::{Id, TransferId};
use crate::transfer_client::manifest::{
    Digest, EntryView, FileMetadata, HashAlgorithm, ManifestView,
};

verus! {

/// The most bytes of a resume ticket in a file.
pub const MAX_RESUME_TICKET_FILE_SIZE: usize = 16_777_216;

/// The version of the form of a resume ticket.
pub const RESUME_TICKET_VERSION: u8 = 1;

/// The part that a side takes in a transfer.
#[derive(Debug, Clone, Copy, PartialEq, Eq, Structural)]
pub enum TransferRole {
    Offerer,
    Accepter,
}

/// How large the parts of a ticket may be.
#[derive(Debug, Clone, Copy, PartialEq, Eq, Structural)]
pub struct TicketLimits {
    /// The bytes of what the server gave.
    pub ticket: usize,
    /// The files.
    pub files: usize,
    /// The bytes of a path.
    pub path: usize,
}

/// The bytes that stand for the roles.
#[derive(Debug, Clone, Copy, PartialEq, Eq, Structural)]
pub struct RoleCodes {
    pub offerer: u8,
    pub accepter: u8,
}

/// What is wrong with the bytes of a ticket.
#[derive(Debug, Clone, Copy, PartialEq, Eq, Structural)]
pub enum TicketError {
    TooLarge,
    Truncated,
    Header,
    Role,
    Hash,
    FieldTooLarge,
    TicketLength,
    ManifestFlag,
    TooManyFiles,
    Path,
    Metadata,
    TrailingData,
}

impl TicketError {
    /// The error in words.
    pub open spec fn spec_message(self) -> &'static str {
        match self {
            TicketError::TooLarge => "resume ticket 文件过大",
            TicketError::Truncated => "resume ticket 数据截断",
            TicketError::Header => "resume ticket 版本或 magic 无效",
            TicketError::Role => "transfer role",
            TicketError::Hash => "resume ticket hash 算法无效",
            TicketError::FieldTooLarge => "resume ticket 字段过大",
            TicketError::TicketLength => "resume ticket 长度无效",
            TicketError::ManifestFlag => "manifest 标记无效",
            TicketError::TooManyFiles => "manifest 文件数超限",
            TicketError::Path => "resume ticket 路径不是 UTF-8",
            TicketError::Metadata => "resume ticket metadata 无效",
            TicketError::TrailingData => "resume ticket 包含尾部数据",
        }
    }

    /// The error in words.
    pub fn message(self) -> (message: &'static str)
        ensures
            message == self.spec_message(),
    {
        match self {
            TicketError::TooLarge => "resume ticket 文件过大",
            TicketError::Truncated => "resume ticket 数据截断",
            TicketError::Header => "resume ticket 版本或 magic 无效",
            TicketError::Role => "transfer role",
            TicketError::Hash => "resume ticket hash 算法无效",
            TicketError::FieldTooLarge => "resume ticket 字段过大",
            TicketError::TicketLength => "resume ticket 长度无效",
            TicketError::ManifestFlag => "manifest 标记无效",
            TicketError::TooManyFiles => "manifest 文件数超限",
            TicketError::Path => "resume ticket 路径不是 UTF-8",
            TicketError::Metadata => "resume ticket metadata 无效",
            TicketError::TrailingData => "resume ticket 包含尾部数据",
        }
    }
}

/// What is known of a ticket.
#[verifier::ext_equal]
pub struct TicketView {
    pub pairing_id: Id,
    pub transfer_id: TransferId,
    pub role: TransferRole,
    pub manifest_digest: Digest,
    pub expires_at_millis: u64,
    pub ticket: Seq<u8>,
    pub manifest: Option<ManifestView>,
}

/// The bytes with which a ticket begins.
pub open spec fn magic() -> Seq<u8> {
    seq![0x55u8, 0x44, 0x50, 0x52, 0x53, 0x4d, 0x30, 0x31]
}

/// The byte that stands for a role.
pub open spec fn role_code(role: TransferRole, codes: RoleCodes) -> u8 {
    match role {
        TransferRole::Offerer => codes.offerer,
        TransferRole::Accepter => codes.accepter,
    }
}

/// The byte that stands for a way to compute digests.
pub open spec fn hash_code(algorithm: HashAlgorithm) -> u8 {
    match algorithm {
        HashAlgorithm::Blake3 => 1,
        HashAlgorithm::Sha256 => 2,
    }
}

/// The bytes of a digest.
pub open spec fn digest_bytes(digest: Digest) -> Seq<u8> {
    seq![hash_code(digest.algorithm)] + be_bytes(digest.high as nat, 16) + be_bytes(
        digest.low as nat,
        16,
    )
}

/// The bytes of a field, after their number.
pub open spec fn blob_bytes(bytes: Seq<u8>) -> Seq<u8> {
    be_bytes(bytes.len() as u32 as nat, 4) + bytes
}

/// The bytes of what may be missing.
pub open spec fn optional_bytes(value: Option<nat>, length: nat) -> Seq<u8> {
    match value {
        Some(value) => seq![1u8] + be_bytes(value, length),
        None => seq![0u8],
    }
}

/// The bits of a time.
pub open spec fn time_bits(time: Option<i64>) -> Option<nat> {
    match time {
        Some(time) => Some(time as u64 as nat),
        None => None,
    }
}

/// The bits of a mode.
pub open spec fn mode_bits(mode: Option<u32>) -> Option<nat> {
    match mode {
        Some(mode) => Some(mode as nat),
        None => None,
    }
}

/// The bytes of what is known of a file besides its contents.
pub open spec fn metadata_bytes(metadata: FileMetadata) -> Seq<u8> {
    optional_bytes(time_bits(metadata.modified_time_unix_seconds), 8) + optional_bytes(
        mode_bits(metadata.mode),
        4,
    )
}

/// The bytes of a file.
pub open spec fn entry_bytes(entry: EntryView) -> Seq<u8> {
    be_bytes(entry.file_id.value as nat, 16) + blob_bytes(encode_utf8(entry.relative_path))
        + be_bytes(entry.size as nat, 8) + digest_bytes(entry.content_hash) + metadata_bytes(
        entry.metadata,
    )
}

/// The bytes of files.
pub open spec fn entries_bytes(entries: Seq<EntryView>) -> Seq<u8>
    decreases entries.len(),
{
    if entries.len() == 0 {
        Seq::empty()
    } else {
        entries_bytes(entries.drop_last()) + entry_bytes(entries.last())
    }
}

/// The bytes of the files of a ticket.
pub open spec fn manifest_bytes(manifest: Option<ManifestView>) -> Seq<u8> {
    match manifest {
        Some(manifest) => seq![1u8] + be_bytes(manifest.entries.len() as u32 as nat, 4)
            + entries_bytes(manifest.entries),
        None => seq![0u8],
    }
}

/// The bytes of a ticket.
pub open spec fn ticket_bytes(view: TicketView, codes: RoleCodes) -> Seq<u8> {
    magic() + seq![RESUME_TICKET_VERSION] + be_bytes(view.pairing_id.value as nat, 16) + be_bytes(
        view.transfer_id.value as nat,
        16,
    ) + seq![role_code(view.role, codes)] + digest_bytes(view.manifest_digest) + be_bytes(
        view.expires_at_millis as nat,
        8,
    ) + blob_bytes(view.ticket) + manifest_bytes(view.manifest)
}

/// What is read, and the bytes that are left.
pub type Taken<T> = Result<(T, Seq<u8>), TicketError>;

/// The bytes from a place on.
pub open spec fn from_place(bytes: Seq<u8>, at: int) -> Seq<u8> {
    bytes.subrange(at, bytes.len() as int)
}

/// Takes some bytes.
pub open spec fn take(rest: Seq<u8>, count: nat) -> Taken<Seq<u8>> {
    if count <= rest.len() {
        Ok((rest.subrange(0, count as int), from_place(rest, count as int)))
    } else {
        Err(TicketError::Truncated)
    }
}

/// Takes the bytes of a number.
pub open spec fn take_number(rest: Seq<u8>, count: nat) -> Taken<nat> {
    match take(rest, count) {
        Ok((bytes, rest)) => Ok((be_value(bytes), rest)),
        Err(error) => Err(error),
    }
}

/// Takes a digest.
pub open spec fn take_digest(rest: Seq<u8>) -> Taken<Digest> {
    match take_number(rest, 1) {
        Err(error) => Err(error),
        Ok((code, rest)) => if code != 1 && code != 2 {
            Err(TicketError::Hash)
        } else {
            match take(rest, 32) {
                Err(error) => Err(error),
                Ok((bytes, rest)) => Ok(
                    (
                        Digest {
                            algorithm: if code == 1 {
                                HashAlgorithm::Blake3
                            } else {
                                HashAlgorithm::Sha256
                            },
                            high: be_value(bytes.subrange(0, 16)) as u128,
                            low: be_value(bytes.subrange(16, 32)) as u128,
                        },
                        rest,
                    ),
                ),
            }
        },
    }
}

/// Takes a field of at most `maximum` bytes.
pub open spec fn take_blob(rest: Seq<u8>, maximum: usize) -> Taken<Seq<u8>> {
    match take_number(rest, 4) {
        Err(error) => Err(error),
        Ok((length, rest)) => if length > maximum {
            Err(TicketError::FieldTooLarge)
        } else {
            take(rest, length)
        },
    }
}

/// Takes a text of at most `maximum` bytes.
pub open spec fn take_text(rest: Seq<u8>, maximum: usize) -> Taken<Seq<char>> {
    match take_blob(rest, maximum) {
        Err(error) => Err(error),
        Ok((bytes, rest)) => if valid_utf8(bytes) {
            Ok((decode_utf8(bytes), rest))
        } else {
            Err(TicketError::Path)
        },
    }
}

/// Takes a number that may be missing.
pub open spec fn take_optional(rest: Seq<u8>, count: nat) -> Taken<Option<nat>> {
    match take_number(rest, 1) {
        Err(error) => Err(error),
        Ok((flag, rest)) => if flag == 0 {
            Ok((None, rest))
        } else if flag == 1 {
            match take_number(rest, count) {
                Err(error) => Err(error),
                Ok((value, rest)) => Ok((Some(value), rest)),
            }
        } else {
            Err(TicketError::Metadata)
        },
    }
}

/// Takes what is known of a file besides its contents.
pub open spec fn take_metadata(rest: Seq<u8>) -> Taken<FileMetadata> {
    match take_optional(rest, 8) {
        Err(error) => Err(error),
        Ok((time, rest)) => match take_optional(rest, 4) {
            Err(error) => Err(error),
            Ok((mode, rest)) => Ok(
                (
                    FileMetadata {
                        modified_time_unix_seconds: match time {
                            Some(time) => Some(time as u64 as i64),
                            None => None,
                        },
                        mode: match mode {
                            Some(mode) => Some(mode as u32),
                            None => None,
                        },
                    },
                    rest,
                ),
            ),
        },
    }
}

/// Takes a file.
pub open spec fn take_entry(rest: Seq<u8>, limits: TicketLimits) -> Taken<EntryView> {
    match take_number(rest, 16) {
        Err(error) => Err(error),
        Ok((id, rest)) => match take_text(rest, limits.path) {
            Err(error) => Err(error),
            Ok((relative_path, rest)) => match take_number(rest, 8) {
                Err(error) => Err(error),
                Ok((size, rest)) => match take_digest(rest) {
                    Err(error) => Err(error),
                    Ok((content_hash, rest)) => match take_metadata(rest) {
                        Err(error) => Err(error),
                        Ok((metadata, rest)) => Ok(
                            (
                                EntryView {
                                    file_id: Id { value: id as u128 },
                                    relative_path,
                                    size: size as u64,
                                    content_hash,
                                    metadata,
                                },
                                rest,
                            ),
                        ),
                    },
                },
            },
        },
    }
}

/// Takes some files.
pub open spec fn take_entries(rest: Seq<u8>, limits: TicketLimits, count: nat) -> Taken<
    Seq<EntryView>,
>
    decreases count,
{
    if count == 0 {
        Ok((Seq::empty(), rest))
    } else {
        match take_entries(rest, limits, (count - 1) as nat) {
            Err(error) => Err(error),
            Ok((entries, rest)) => match take_entry(rest, limits) {
                Err(error) => Err(error),
                Ok((entry, rest)) => Ok((entries.push(entry), rest)),
            },
        }
    }
}

/// Takes the files of a ticket.
pub open spec fn take_manifest(rest: Seq<u8>, digest: Digest, limits: TicketLimits) -> Taken<
    Option<ManifestView>,
> {
    match take_number(rest, 1) {
        Err(error) => Err(error),
        Ok((flag, rest)) => if flag == 0 {
            Ok((None, rest))
        } else if flag == 1 {
            match take_number(rest, 4) {
                Err(error) => Err(error),
                Ok((count, rest)) => if count > limits.files {
                    Err(TicketError::TooManyFiles)
                } else {
                    match take_entries(rest, limits, count) {
                        Err(error) => Err(error),
                        Ok((entries, rest)) => Ok((Some(ManifestView { digest, entries }), rest)),
                    }
                },
            }
        } else {
            Err(TicketError::ManifestFlag)
        },
    }
}

/// Takes the beginning of a ticket.
pub open spec fn take_header(rest: Seq<u8>) -> Taken<()> {
    match take(rest, 8) {
        Err(error) => Err(error),
        Ok((found, rest)) => if found != magic() {
            Err(TicketError::Header)
        } else {
            match take_number(rest, 1) {
                Err(error) => Err(error),
                Ok((version, rest)) => if version != RESUME_TICKET_VERSION {
                    Err(TicketError::Header)
                } else {
                    Ok(((), rest))
                },
            }
        },
    }
}

/// Takes a role.
pub open spec fn take_role(rest: Seq<u8>, codes: RoleCodes) -> Taken<TransferRole> {
    match take_number(rest, 1) {
        Err(error) => Err(error),
        Ok((code, rest)) => if code == codes.offerer {
            Ok((TransferRole::Offerer, rest))
        } else if code == codes.accepter {
            Ok((TransferRole::Accepter, rest))
        } else {
            Err(TicketError::Role)
        },
    }
}

/// Takes what the server gave.
pub open spec fn take_ticket(rest: Seq<u8>, limits: TicketLimits) -> Taken<Seq<u8>> {
    match take_blob(rest, limits.ticket) {
        Err(error) => Err(error),
        Ok((ticket, rest)) => if ticket.len() == 0 {
            Err(TicketError::TicketLength)
        } else {
            Ok((ticket, rest))
        },
    }
}

/// Takes a ticket.
pub open spec fn take_all(rest: Seq<u8>, limits: TicketLimits, codes: RoleCodes) -> Taken<
    TicketView,
> {
    match take_header(rest) {
        Err(error) => Err(error),
        Ok((_, rest)) => match take_number(rest, 16) {
            Err(error) => Err(error),
            Ok((pairing_id, rest)) => match take_number(rest, 16) {
                Err(error) => Err(error),
                Ok((transfer_id, rest)) => match take_role(rest, codes) {
                    Err(error) => Err(error),
                    Ok((role, rest)) => match take_digest(rest) {
                        Err(error) => Err(error),
                        Ok((manifest_digest, rest)) => match take_number(rest, 8) {
                            Err(error) => Err(error),
                            Ok((expires, rest)) => match take_ticket(rest, limits) {
                                Err(error) => Err(error),
                                Ok((ticket, rest)) => match take_manifest(
                                    rest,
                                    manifest_digest,
                                    limits,
                                ) {
                                    Err(error) => Err(error),
                                    Ok((manifest, rest)) => Ok(
                                        (
                                            TicketView {
                                                pairing_id: Id { value: pairing_id as u128 },
                                                transfer_id: Id { value: transfer_id as u128 },
                                                role,
                                                manifest_digest,
                                                expires_at_millis: expires as u64,
                                                ticket,
                                                manifest,
                                            },
                                            rest,
                                        ),
                                    ),
                                },
                            },
                        },
                    },
                },
            },
        },
    }
}

/// The ticket that bytes write down, or what is wrong with them.
pub open spec fn ticket_of(bytes: Seq<u8>, limits: TicketLimits, codes: RoleCodes) -> Result<
    TicketView,
    TicketError,
> {
    if bytes.len() > MAX_RESUME_TICKET_FILE_SIZE {
        Err(TicketError::TooLarge)
    } else {
        match take_all(bytes, limits, codes) {
            Err(error) => Err(error),
            Ok((view, rest)) => if rest.len() > 0 {
                Err(TicketError::TrailingData)
            } else {
                Ok(view)
            },
        }
    }
}

/// What was read up to `next` is what is taken from the bytes at `at`.
pub open spec fn is_taken<T>(
    bytes: Seq<u8>,
    at: int,
    next: int,
    value: T,
    taken: Taken<T>,
) -> bool {
    &&& at <= next <= bytes.len()
    &&& taken == Ok::<(T, Seq<u8>), TicketError>((value, from_place(bytes, next)))
}

} // verus!
