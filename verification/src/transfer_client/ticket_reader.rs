//! Reading a resume ticket.

use vstd::prelude::*;
use vstd::utf8::{decode_utf8, valid_utf8};

use crate::bytes::{be_value, bytes_equal, copy_range, read_be};
use crate::ids::Id;
use crate::transfer_client::manifest::{
    entry_views, Digest, EntryView, FileMetadata, HashAlgorithm, Manifest, ManifestEntry,
    ManifestView,
};
use crate::transfer_client::ticket_format::{
    from_place, is_taken, magic, take, take_blob, take_digest, take_entries, take_entry,
    take_header, take_manifest, take_metadata, take_number, take_optional, take_role, take_text,
    take_ticket, ticket_of, MAX_RESUME_TICKET_FILE_SIZE, RESUME_TICKET_VERSION, RoleCodes,
    TicketError, TicketLimits, TicketView, TransferRole,
};

verus! {

/// `String::from_utf8`: the text whose bytes these are, and none exactly if they
/// are not the bytes of a text.
#[verifier::external_body]
fn text_of(bytes: Vec<u8>) -> (text: Option<String>)
    ensures
        match text {
            Some(text) => valid_utf8(bytes@) && text@ == decode_utf8(bytes@),
            None => !valid_utf8(bytes@),
        },
{
    String::from_utf8(bytes).ok()
}

/// Reads some bytes.
fn read_bytes(bytes: &[u8], at: usize, count: usize) -> (result: Result<
    (Vec<u8>, usize),
    TicketError,
>)
    requires
        at <= bytes@.len(),
    ensures
        match result {
            Ok((found, next)) => is_taken(
                bytes@,
                at as int,
                next as int,
                found@,
                take(from_place(bytes@, at as int), count as nat),
            ),
            Err(error) => take(from_place(bytes@, at as int), count as nat) == Err::<
                (Seq<u8>, Seq<u8>),
                TicketError,
            >(error),
        },
{
    if count > bytes.len() - at {
        return Err(TicketError::Truncated);
    }
    let found: Vec<u8> = copy_range(bytes, at, at + count);
    proof {
        let rest = from_place(bytes@, at as int);
        assert(rest.subrange(0, count as int) =~= found@);
        assert(from_place(rest, count as int) =~= from_place(bytes@, at + count));
    }
    Ok((found, at + count))
}

/// Reads a number.
fn read_number(bytes: &[u8], at: usize, count: usize) -> (result: Result<
    (u128, usize),
    TicketError,
>)
    requires
        at <= bytes@.len(),
        count <= 16,
    ensures
        match result {
            Ok((found, next)) => is_taken(
                bytes@,
                at as int,
                next as int,
                found as nat,
                take_number(from_place(bytes@, at as int), count as nat),
            ),
            Err(error) => take_number(from_place(bytes@, at as int), count as nat) == Err::<
                (nat, Seq<u8>),
                TicketError,
            >(error),
        },
{
    if count > bytes.len() - at {
        return Err(TicketError::Truncated);
    }
    let value: u128 = read_be(bytes, at, count);
    proof {
        let rest = from_place(bytes@, at as int);
        assert(rest.subrange(0, count as int) =~= bytes@.subrange(at as int, at + count));
        assert(from_place(rest, count as int) =~= from_place(bytes@, at + count));
    }
    Ok((value, at + count))
}

/// Reads a digest.
fn read_digest(bytes: &[u8], at: usize) -> (result: Result<(Digest, usize), TicketError>)
    requires
        at <= bytes@.len(),
    ensures
        match result {
            Ok((found, next)) => is_taken(
                bytes@,
                at as int,
                next as int,
                found,
                take_digest(from_place(bytes@, at as int)),
            ),
            Err(error) => take_digest(from_place(bytes@, at as int)) == Err::<
                (Digest, Seq<u8>),
                TicketError,
            >(error),
        },
{
    let (code, at): (u128, usize) = match read_number(bytes, at, 1) {
        Ok(read) => read,
        Err(error) => {
            return Err(error);
        },
    };
    let algorithm = if code == 1 {
        HashAlgorithm::Blake3
    } else if code == 2 {
        HashAlgorithm::Sha256
    } else {
        return Err(TicketError::Hash);
    };
    let (found, next): (Vec<u8>, usize) = match read_bytes(bytes, at, 32) {
        Ok(read) => read,
        Err(error) => {
            return Err(error);
        },
    };
    Ok((Digest { algorithm, high: read_be(&found, 0, 16), low: read_be(&found, 16, 16) }, next))
}

/// Reads a field of at most `maximum` bytes that stands at `at`, and gives the place
/// behind it.
pub fn read_blob(bytes: &[u8], at: usize, maximum: usize) -> (result: Result<
    (Vec<u8>, usize),
    TicketError,
>)
    requires
        at <= bytes@.len(),
    ensures
        match result {
            Ok((found, next)) => is_taken(
                bytes@,
                at as int,
                next as int,
                found@,
                take_blob(from_place(bytes@, at as int), maximum),
            ),
            Err(error) => take_blob(from_place(bytes@, at as int), maximum) == Err::<
                (Seq<u8>, Seq<u8>),
                TicketError,
            >(error),
        },
        ({
            let length = be_value(bytes@.subrange(at as int, at + 4));
            &&& result is Ok <==> at + 4 <= bytes@.len() && length <= maximum && at + 4 + length
                <= bytes@.len()
            &&& result matches Ok((found, next)) ==> next == at + 4 + length && found@
                == bytes@.subrange(at + 4, next as int)
        }),
{
    let ghost rest = from_place(bytes@, at as int);
    proof {
        if at + 4 <= bytes@.len() {
            let after = from_place(bytes@, at + 4);
            let length = be_value(rest.subrange(0, 4));
            assert(rest.subrange(0, 4) =~= bytes@.subrange(at as int, at + 4));
            assert(from_place(rest, 4) =~= after);
            if length <= after.len() {
                assert(after.subrange(0, length as int) =~= bytes@.subrange(
                    at + 4,
                    at + 4 + length,
                ));
                assert(from_place(after, length as int).len() == bytes@.len() - at - 4 - length);
            }
        }
    }
    let (length, at): (u128, usize) = match read_number(bytes, at, 4) {
        Ok(read) => read,
        Err(error) => {
            return Err(error);
        },
    };
    if length > maximum as u128 {
        return Err(TicketError::FieldTooLarge);
    }
    read_bytes(bytes, at, length as usize)
}

/// Reads a text of at most `maximum` bytes.
fn read_text(bytes: &[u8], at: usize, maximum: usize) -> (result: Result<
    (String, usize),
    TicketError,
>)
    requires
        at <= bytes@.len(),
    ensures
        match result {
            Ok((found, next)) => is_taken(
                bytes@,
                at as int,
                next as int,
                found@,
                take_text(from_place(bytes@, at as int), maximum),
            ),
            Err(error) => take_text(from_place(bytes@, at as int), maximum) == Err::<
                (Seq<char>, Seq<u8>),
                TicketError,
            >(error),
        },
{
    let (found, next): (Vec<u8>, usize) = match read_blob(bytes, at, maximum) {
        Ok(read) => read,
        Err(error) => {
            return Err(error);
        },
    };
    match text_of(found) {
        Some(text) => Ok((text, next)),
        None => Err(TicketError::Path),
    }
}

/// A number that may be missing, as a number of the model.
pub open spec fn as_nat(value: Option<u128>) -> Option<nat> {
    match value {
        Some(value) => Some(value as nat),
        None => None,
    }
}

/// Reads a number that may be missing.
fn read_optional(bytes: &[u8], at: usize, count: usize) -> (result: Result<
    (Option<u128>, usize),
    TicketError,
>)
    requires
        at <= bytes@.len(),
        count <= 16,
    ensures
        match result {
            Ok((found, next)) => is_taken(
                bytes@,
                at as int,
                next as int,
                as_nat(found),
                take_optional(from_place(bytes@, at as int), count as nat),
            ),
            Err(error) => take_optional(from_place(bytes@, at as int), count as nat) == Err::<
                (Option<nat>, Seq<u8>),
                TicketError,
            >(error),
        },
{
    let (flag, at): (u128, usize) = match read_number(bytes, at, 1) {
        Ok(read) => read,
        Err(error) => {
            return Err(error);
        },
    };
    if flag == 0 {
        return Ok((None, at));
    }
    if flag != 1 {
        return Err(TicketError::Metadata);
    }
    match read_number(bytes, at, count) {
        Ok((value, next)) => Ok((Some(value), next)),
        Err(error) => Err(error),
    }
}

/// The time whose bits these are.
fn time_of(bits: u128) -> (time: i64)
    ensures
        time == bits as nat as u64 as i64,
{
    #[verifier::truncate]
    let low: u64 = bits as u64;
    #[verifier::truncate]
    (low as i64)
}

/// The mode whose bits these are.
fn mode_of(bits: u128) -> (mode: u32)
    ensures
        mode == bits as nat as u32,
{
    #[verifier::truncate]
    (bits as u32)
}

/// Reads what is known of a file besides its contents.
fn read_metadata(bytes: &[u8], at: usize) -> (result: Result<(FileMetadata, usize), TicketError>)
    requires
        at <= bytes@.len(),
    ensures
        match result {
            Ok((found, next)) => is_taken(
                bytes@,
                at as int,
                next as int,
                found,
                take_metadata(from_place(bytes@, at as int)),
            ),
            Err(error) => take_metadata(from_place(bytes@, at as int)) == Err::<
                (FileMetadata, Seq<u8>),
                TicketError,
            >(error),
        },
{
    let (time, at): (Option<u128>, usize) = match read_optional(bytes, at, 8) {
        Ok(read) => read,
        Err(error) => {
            return Err(error);
        },
    };
    let (mode, next): (Option<u128>, usize) = match read_optional(bytes, at, 4) {
        Ok(read) => read,
        Err(error) => {
            return Err(error);
        },
    };
    let modified_time_unix_seconds: Option<i64> = match time {
        Some(bits) => Some(time_of(bits)),
        None => None,
    };
    let mode: Option<u32> = match mode {
        Some(bits) => Some(mode_of(bits)),
        None => None,
    };
    Ok((FileMetadata { modified_time_unix_seconds, mode }, next))
}

/// Reads a file.
fn read_entry(bytes: &[u8], at: usize, limits: TicketLimits) -> (result: Result<
    (ManifestEntry, usize),
    TicketError,
>)
    requires
        at <= bytes@.len(),
    ensures
        match result {
            Ok((found, next)) => is_taken(
                bytes@,
                at as int,
                next as int,
                found@,
                take_entry(from_place(bytes@, at as int), limits),
            ),
            Err(error) => take_entry(from_place(bytes@, at as int), limits) == Err::<
                (EntryView, Seq<u8>),
                TicketError,
            >(error),
        },
{
    let (id, at): (u128, usize) = match read_number(bytes, at, 16) {
        Ok(read) => read,
        Err(error) => {
            return Err(error);
        },
    };
    let (relative_path, at): (String, usize) = match read_text(bytes, at, limits.path) {
        Ok(read) => read,
        Err(error) => {
            return Err(error);
        },
    };
    let (size, at): (u128, usize) = match read_number(bytes, at, 8) {
        Ok(read) => read,
        Err(error) => {
            return Err(error);
        },
    };
    let (content_hash, at): (Digest, usize) = match read_digest(bytes, at) {
        Ok(read) => read,
        Err(error) => {
            return Err(error);
        },
    };
    let (metadata, next): (FileMetadata, usize) = match read_metadata(bytes, at) {
        Ok(read) => read,
        Err(error) => {
            return Err(error);
        },
    };
    let size: u64 = low_bits(size);
    Ok(
        (
            ManifestEntry { file_id: Id { value: id }, relative_path, size, content_hash, metadata },
            next,
        ),
    )
}

/// The low half of a number.
fn low_bits(number: u128) -> (half: u64)
    ensures
        half == number as nat as u64,
{
    #[verifier::truncate]
    (number as u64)
}

/// If some files cannot be read, more cannot either, for the same reason.
proof fn lemma_entries_end(
    rest: Seq<u8>,
    limits: TicketLimits,
    count: nat,
    total: nat,
    error: TicketError,
)
    requires
        count <= total,
        take_entries(rest, limits, count) == Err::<(Seq<EntryView>, Seq<u8>), TicketError>(error),
    ensures
        take_entries(rest, limits, total) == Err::<(Seq<EntryView>, Seq<u8>), TicketError>(error),
    decreases total,
{
    if count < total {
        lemma_entries_end(rest, limits, count, (total - 1) as nat, error);
    }
}

/// Reads some files.
fn read_entries(bytes: &[u8], at: usize, limits: TicketLimits, count: usize) -> (result: Result<
    (Vec<ManifestEntry>, usize),
    TicketError,
>)
    requires
        at <= bytes@.len(),
    ensures
        match result {
            Ok((found, next)) => is_taken(
                bytes@,
                at as int,
                next as int,
                entry_views(found@),
                take_entries(from_place(bytes@, at as int), limits, count as nat),
            ),
            Err(error) => take_entries(from_place(bytes@, at as int), limits, count as nat) == Err::<
                (Seq<EntryView>, Seq<u8>),
                TicketError,
            >(error),
        },
{
    let ghost rest = from_place(bytes@, at as int);
    let mut entries: Vec<ManifestEntry> = Vec::new();
    let mut next: usize = at;
    let mut index: usize = 0;
    assert(entry_views(entries@) =~= Seq::empty());
    while index < count
        invariant
            index <= count,
            at <= next <= bytes@.len(),
            rest == from_place(bytes@, at as int),
            take_entries(rest, limits, index as nat) == Ok::<
                (Seq<EntryView>, Seq<u8>),
                TicketError,
            >((entry_views(entries@), from_place(bytes@, next as int))),
        decreases count - index,
    {
        let ghost before = entries@;
        match read_entry(bytes, next, limits) {
            Ok((entry, end)) => {
                entries.push(entry);
                next = end;
                assert(entry_views(entries@) =~= entry_views(before).push(entry@));
            },
            Err(error) => {
                proof {
                    lemma_entries_end(rest, limits, (index + 1) as nat, count as nat, error);
                }
                return Err(error);
            },
        }
        index = index + 1;
    }
    Ok((entries, next))
}

/// What is known of a manifest that may be missing.
pub open spec fn manifest_view(manifest: Option<Manifest>) -> Option<ManifestView> {
    match manifest {
        Some(manifest) => Some(manifest@),
        None => None,
    }
}

/// Reads the files of a ticket.
fn read_manifest(bytes: &[u8], at: usize, digest: Digest, limits: TicketLimits) -> (result: Result<
    (Option<Manifest>, usize),
    TicketError,
>)
    requires
        at <= bytes@.len(),
    ensures
        match result {
            Ok((found, next)) => is_taken(
                bytes@,
                at as int,
                next as int,
                manifest_view(found),
                take_manifest(from_place(bytes@, at as int), digest, limits),
            ),
            Err(error) => take_manifest(from_place(bytes@, at as int), digest, limits) == Err::<
                (Option<ManifestView>, Seq<u8>),
                TicketError,
            >(error),
        },
{
    let (flag, at): (u128, usize) = match read_number(bytes, at, 1) {
        Ok(read) => read,
        Err(error) => {
            return Err(error);
        },
    };
    if flag == 0 {
        return Ok((None, at));
    }
    if flag != 1 {
        return Err(TicketError::ManifestFlag);
    }
    let (count, at): (u128, usize) = match read_number(bytes, at, 4) {
        Ok(read) => read,
        Err(error) => {
            return Err(error);
        },
    };
    if count > limits.files as u128 {
        return Err(TicketError::TooManyFiles);
    }
    match read_entries(bytes, at, limits, count as usize) {
        Ok((entries, next)) => Ok((Some(Manifest { digest, entries }), next)),
        Err(error) => Err(error),
    }
}

/// Reads the beginning of a ticket.
fn read_header(bytes: &[u8], at: usize) -> (result: Result<usize, TicketError>)
    requires
        at <= bytes@.len(),
    ensures
        match result {
            Ok(next) => is_taken(
                bytes@,
                at as int,
                next as int,
                (),
                take_header(from_place(bytes@, at as int)),
            ),
            Err(error) => take_header(from_place(bytes@, at as int)) == Err::<
                ((), Seq<u8>),
                TicketError,
            >(error),
        },
{
    let (found, at): (Vec<u8>, usize) = match read_bytes(bytes, at, 8) {
        Ok(read) => read,
        Err(error) => {
            return Err(error);
        },
    };
    let expected: Vec<u8> = vec![0x55u8, 0x44, 0x50, 0x52, 0x53, 0x4d, 0x30, 0x31];
    assert(expected@ =~= magic());
    if !bytes_equal(&found, &expected) {
        return Err(TicketError::Header);
    }
    match read_number(bytes, at, 1) {
        Ok((version, next)) => {
            if version != RESUME_TICKET_VERSION as u128 {
                return Err(TicketError::Header);
            }
            Ok(next)
        },
        Err(error) => Err(error),
    }
}

/// Reads a role.
fn read_role(bytes: &[u8], at: usize, codes: RoleCodes) -> (result: Result<
    (TransferRole, usize),
    TicketError,
>)
    requires
        at <= bytes@.len(),
    ensures
        match result {
            Ok((found, next)) => is_taken(
                bytes@,
                at as int,
                next as int,
                found,
                take_role(from_place(bytes@, at as int), codes),
            ),
            Err(error) => take_role(from_place(bytes@, at as int), codes) == Err::<
                (TransferRole, Seq<u8>),
                TicketError,
            >(error),
        },
{
    match read_number(bytes, at, 1) {
        Ok((code, next)) => {
            if code == codes.offerer as u128 {
                Ok((TransferRole::Offerer, next))
            } else if code == codes.accepter as u128 {
                Ok((TransferRole::Accepter, next))
            } else {
                Err(TicketError::Role)
            }
        },
        Err(error) => Err(error),
    }
}

/// Reads what the server gave.
fn read_wire_ticket(bytes: &[u8], at: usize, limits: TicketLimits) -> (result: Result<
    (Vec<u8>, usize),
    TicketError,
>)
    requires
        at <= bytes@.len(),
    ensures
        match result {
            Ok((found, next)) => is_taken(
                bytes@,
                at as int,
                next as int,
                found@,
                take_ticket(from_place(bytes@, at as int), limits),
            ),
            Err(error) => take_ticket(from_place(bytes@, at as int), limits) == Err::<
                (Seq<u8>, Seq<u8>),
                TicketError,
            >(error),
        },
{
    match read_blob(bytes, at, limits.ticket) {
        Ok((ticket, next)) => {
            if ticket.len() == 0 {
                return Err(TicketError::TicketLength);
            }
            Ok((ticket, next))
        },
        Err(error) => Err(error),
    }
}

/// What a ticket says.
pub struct TicketParts {
    pub pairing_id: Id,
    pub transfer_id: Id,
    pub role: TransferRole,
    pub manifest_digest: Digest,
    pub expires_at_millis: u64,
    pub ticket: Vec<u8>,
    pub manifest: Option<Manifest>,
}

impl View for TicketParts {
    type V = TicketView;

    open spec fn view(&self) -> TicketView {
        TicketView {
            pairing_id: self.pairing_id,
            transfer_id: self.transfer_id,
            role: self.role,
            manifest_digest: self.manifest_digest,
            expires_at_millis: self.expires_at_millis,
            ticket: self.ticket@,
            manifest: manifest_view(self.manifest),
        }
    }
}

/// Reads a ticket.
pub fn read_ticket(bytes: &[u8], limits: TicketLimits, codes: RoleCodes) -> (result: Result<
    TicketParts,
    TicketError,
>)
    ensures
        match result {
            Ok(parts) => ticket_of(bytes@, limits, codes) == Ok::<TicketView, TicketError>(parts@),
            Err(error) => ticket_of(bytes@, limits, codes) == Err::<TicketView, TicketError>(error),
        },
{
    if bytes.len() > MAX_RESUME_TICKET_FILE_SIZE {
        return Err(TicketError::TooLarge);
    }
    assert(from_place(bytes@, 0) =~= bytes@);
    let at: usize = match read_header(bytes, 0) {
        Ok(next) => next,
        Err(error) => {
            return Err(error);
        },
    };
    let (pairing_id, at): (u128, usize) = match read_number(bytes, at, 16) {
        Ok(read) => read,
        Err(error) => {
            return Err(error);
        },
    };
    let (transfer_id, at): (u128, usize) = match read_number(bytes, at, 16) {
        Ok(read) => read,
        Err(error) => {
            return Err(error);
        },
    };
    let (role, at): (TransferRole, usize) = match read_role(bytes, at, codes) {
        Ok(read) => read,
        Err(error) => {
            return Err(error);
        },
    };
    let (manifest_digest, at): (Digest, usize) = match read_digest(bytes, at) {
        Ok(read) => read,
        Err(error) => {
            return Err(error);
        },
    };
    let (expires, at): (u128, usize) = match read_number(bytes, at, 8) {
        Ok(read) => read,
        Err(error) => {
            return Err(error);
        },
    };
    let (ticket, at): (Vec<u8>, usize) = match read_wire_ticket(bytes, at, limits) {
        Ok(read) => read,
        Err(error) => {
            return Err(error);
        },
    };
    let (manifest, at): (Option<Manifest>, usize) = match read_manifest(
        bytes,
        at,
        manifest_digest,
        limits,
    ) {
        Ok(read) => read,
        Err(error) => {
            return Err(error);
        },
    };
    if at != bytes.len() {
        return Err(TicketError::TrailingData);
    }
    Ok(
        TicketParts {
            pairing_id: Id { value: pairing_id },
            transfer_id: Id { value: transfer_id },
            role,
            manifest_digest,
            expires_at_millis: low_bits(expires),
            ticket,
            manifest,
        },
    )
}

} // verus!
