//! Reading a resume ticket gives what was written, and nothing else is read.

use vstd::prelude::*;
use vstd::utf8::{
    decode_utf8_encode_utf8, encode_utf8, encode_utf8_decode_utf8, encode_utf8_valid_utf8,
    valid_utf8,
};

use crate::bytes::{
    be_bytes, be_limit, law_be_read_gives_what_was_written, law_be_write_gives_what_was_read,
    lemma_be_limits,
};
use crate::transfer_client::manifest::{Digest, EntryView, FileMetadata, ManifestView};
use crate::transfer_client::ticket_format::{
    blob_bytes, digest_bytes, entries_bytes, entry_bytes, from_place, hash_code, magic,
    manifest_bytes, metadata_bytes, mode_bits, optional_bytes, role_code, take, take_all, take_blob,
    take_digest, take_entries, take_entry, take_header, take_manifest, take_metadata, take_number,
    take_optional, take_role, take_text, take_ticket, ticket_bytes, ticket_of, time_bits,
    MAX_RESUME_TICKET_FILE_SIZE, RESUME_TICKET_VERSION, RoleCodes, TicketError, TicketLimits,
    TicketView,
};

verus! {

/// Whether a field is small enough.
pub open spec fn is_field(bytes: Seq<u8>, maximum: usize) -> bool {
    bytes.len() <= maximum && bytes.len() <= u32::MAX
}

/// Whether the files are few enough, and their paths short enough.
pub open spec fn entries_fit(entries: Seq<EntryView>, limits: TicketLimits) -> bool {
    forall|i: int|
        0 <= i < entries.len() ==> is_field(
            encode_utf8((#[trigger] entries[i]).relative_path),
            limits.path,
        )
}

/// Whether a ticket is within the limits. The digest of its files is the one that
/// it names.
pub open spec fn ticket_fits(view: TicketView, limits: TicketLimits, codes: RoleCodes) -> bool {
    &&& view.ticket.len() > 0
    &&& is_field(view.ticket, limits.ticket)
    &&& view.manifest matches Some(manifest) ==> {
        &&& manifest.digest == view.manifest_digest
        &&& manifest.entries.len() <= limits.files
        &&& manifest.entries.len() <= u32::MAX
        &&& entries_fit(manifest.entries, limits)
    }
    &&& ticket_bytes(view, codes).len() <= MAX_RESUME_TICKET_FILE_SIZE
}

/// Three pieces, joined from either side.
proof fn lemma_three(a: Seq<u8>, b: Seq<u8>, c: Seq<u8>)
    ensures
        a + b + c == a + (b + c),
{
    assert(a + b + c =~= a + (b + c));
}

/// Six pieces, joined from either side.
proof fn lemma_six(a: Seq<u8>, b: Seq<u8>, c: Seq<u8>, d: Seq<u8>, e: Seq<u8>, f: Seq<u8>)
    ensures
        a + b + c + d + e + f == a + (b + (c + (d + (e + f)))),
{
    assert(a + b + c + d + e + f =~= a + (b + (c + (d + (e + f)))));
}

/// Nine pieces, joined from either side.
proof fn lemma_nine(
    a: Seq<u8>,
    b: Seq<u8>,
    c: Seq<u8>,
    d: Seq<u8>,
    e: Seq<u8>,
    f: Seq<u8>,
    g: Seq<u8>,
    h: Seq<u8>,
    i: Seq<u8>,
)
    ensures
        a + b + c + d + e + f + g + h + i == a + (b + (c + (d + (e + (f + (g + (h + i))))))),
{
    lemma_six(a, b, c, d, e, f);
    let left = a + b + c + d + e + f;
    assert(left + g + h + i =~= left + (g + (h + i)));
    let tail = g + (h + i);
    lemma_six(a, b, c, d, e, f + tail);
    assert(left + tail =~= a + b + c + d + e + (f + tail));
}

proof fn lemma_take(prefix: Seq<u8>, rest: Seq<u8>)
    ensures
        take(prefix + rest, prefix.len()) == Ok::<(Seq<u8>, Seq<u8>), TicketError>((prefix, rest)),
{
    assert((prefix + rest).subrange(0, prefix.len() as int) =~= prefix);
    assert(from_place(prefix + rest, prefix.len() as int) =~= rest);
}

proof fn lemma_number(value: nat, count: nat, rest: Seq<u8>)
    requires
        value < be_limit(count),
    ensures
        take_number(be_bytes(value, count) + rest, count) == Ok::<(nat, Seq<u8>), TicketError>(
            (value, rest),
        ),
{
    law_be_read_gives_what_was_written(value, count);
    lemma_take(be_bytes(value, count), rest);
}

proof fn lemma_byte(value: u8, rest: Seq<u8>)
    ensures
        take_number(seq![value] + rest, 1) == Ok::<(nat, Seq<u8>), TicketError>(
            (value as nat, rest),
        ),
        be_bytes(value as nat, 1) == seq![value],
{
    lemma_be_limits();
    reveal_with_fuel(be_bytes, 2);
    assert(be_bytes(value as nat, 1) =~= seq![value]);
    lemma_number(value as nat, 1, rest);
}

proof fn lemma_digest(digest: Digest, rest: Seq<u8>)
    ensures
        take_digest(digest_bytes(digest) + rest) == Ok::<(Digest, Seq<u8>), TicketError>(
            (digest, rest),
        ),
{
    lemma_be_limits();
    let high = be_bytes(digest.high as nat, 16);
    let low = be_bytes(digest.low as nat, 16);
    let code = hash_code(digest.algorithm);
    assert(digest_bytes(digest) + rest =~= seq![code] + (high + low + rest));
    lemma_byte(code, high + low + rest);
    law_be_read_gives_what_was_written(digest.high as nat, 16);
    law_be_read_gives_what_was_written(digest.low as nat, 16);
    lemma_take(high + low, rest);
    assert((high + low).subrange(0, 16) =~= high);
    assert((high + low).subrange(16, 32) =~= low);
}

/// A field that was written is read, and what follows it is left.
pub proof fn law_field_read_gives_what_was_written(
    bytes: Seq<u8>,
    maximum: usize,
    rest: Seq<u8>,
)
    requires
        is_field(bytes, maximum),
    ensures
        take_blob(blob_bytes(bytes) + rest, maximum) == Ok::<(Seq<u8>, Seq<u8>), TicketError>(
            (bytes, rest),
        ),
{
    lemma_be_limits();
    let length = bytes.len() as u32 as nat;
    assert(length == bytes.len());
    assert(blob_bytes(bytes) + rest =~= be_bytes(length, 4) + (bytes + rest));
    lemma_number(length, 4, bytes + rest);
    lemma_take(bytes, rest);
}

proof fn lemma_text(text: Seq<char>, maximum: usize, rest: Seq<u8>)
    requires
        is_field(encode_utf8(text), maximum),
    ensures
        take_text(blob_bytes(encode_utf8(text)) + rest, maximum) == Ok::<
            (Seq<char>, Seq<u8>),
            TicketError,
        >((text, rest)),
{
    law_field_read_gives_what_was_written(encode_utf8(text), maximum, rest);
    encode_utf8_valid_utf8(text);
    encode_utf8_decode_utf8(text);
}

proof fn lemma_optional(value: Option<nat>, count: nat, rest: Seq<u8>)
    requires
        value matches Some(value) ==> value < be_limit(count),
    ensures
        take_optional(optional_bytes(value, count) + rest, count) == Ok::<
            (Option<nat>, Seq<u8>),
            TicketError,
        >((value, rest)),
{
    match value {
        Some(number) => {
            assert(optional_bytes(value, count) + rest =~= seq![1u8] + (be_bytes(number, count)
                + rest));
            lemma_byte(1, be_bytes(number, count) + rest);
            lemma_number(number, count, rest);
        },
        None => {
            lemma_byte(0, rest);
        },
    }
}

proof fn lemma_metadata(metadata: FileMetadata, rest: Seq<u8>)
    ensures
        take_metadata(metadata_bytes(metadata) + rest) == Ok::<
            (FileMetadata, Seq<u8>),
            TicketError,
        >((metadata, rest)),
{
    lemma_be_limits();
    let time = time_bits(metadata.modified_time_unix_seconds);
    let mode = mode_bits(metadata.mode);
    let after = optional_bytes(mode, 4) + rest;
    assert(metadata_bytes(metadata) + rest =~= optional_bytes(time, 8) + after);
    lemma_optional(time, 8, after);
    lemma_optional(mode, 4, rest);
    match metadata.modified_time_unix_seconds {
        Some(seconds) => {
            assert(seconds as u64 as i64 == seconds) by (bit_vector);
        },
        None => {},
    }
}

proof fn lemma_entry(entry: EntryView, limits: TicketLimits, rest: Seq<u8>)
    requires
        is_field(encode_utf8(entry.relative_path), limits.path),
    ensures
        take_entry(entry_bytes(entry) + rest, limits) == Ok::<(EntryView, Seq<u8>), TicketError>(
            (entry, rest),
        ),
{
    lemma_be_limits();
    let id = be_bytes(entry.file_id.value as nat, 16);
    let path = blob_bytes(encode_utf8(entry.relative_path));
    let size = be_bytes(entry.size as nat, 8);
    let hash = digest_bytes(entry.content_hash);
    let metadata = metadata_bytes(entry.metadata);
    lemma_six(id, path, size, hash, metadata, rest);
    assert(entry_bytes(entry) + rest == id + (path + (size + (hash + (metadata + rest)))));
    lemma_number(entry.file_id.value as nat, 16, path + (size + (hash + (metadata + rest))));
    lemma_text(entry.relative_path, limits.path, size + (hash + (metadata + rest)));
    lemma_number(entry.size as nat, 8, hash + (metadata + rest));
    lemma_digest(entry.content_hash, metadata + rest);
    lemma_metadata(entry.metadata, rest);
}

#[verifier::spinoff_prover]
proof fn lemma_entries(entries: Seq<EntryView>, limits: TicketLimits, rest: Seq<u8>)
    requires
        entries_fit(entries, limits),
    ensures
        take_entries(entries_bytes(entries) + rest, limits, entries.len()) == Ok::<
            (Seq<EntryView>, Seq<u8>),
            TicketError,
        >((entries, rest)),
    decreases entries.len(),
{
    if entries.len() == 0 {
        assert(entries_bytes(entries) + rest =~= rest);
        assert(entries =~= Seq::empty());
    } else {
        let last = entry_bytes(entries.last());
        lemma_three(entries_bytes(entries.drop_last()), last, rest);
        assert(entries_bytes(entries) + rest == entries_bytes(entries.drop_last()) + (last + rest));
        assert(entries_fit(entries.drop_last(), limits)) by {
            assert forall|i: int| 0 <= i < entries.drop_last().len() implies is_field(
                encode_utf8((#[trigger] entries.drop_last()[i]).relative_path),
                limits.path,
            ) by {
                assert(entries.drop_last()[i] == entries[i]);
            }
        }
        lemma_entries(entries.drop_last(), limits, last + rest);
        assert(entries.last() == entries[entries.len() - 1]);
        lemma_entry(entries.last(), limits, rest);
        assert(entries.drop_last().push(entries.last()) =~= entries);
    }
}

proof fn lemma_manifest(
    view: TicketView,
    limits: TicketLimits,
    codes: RoleCodes,
    rest: Seq<u8>,
)
    requires
        ticket_fits(view, limits, codes),
    ensures
        take_manifest(manifest_bytes(view.manifest) + rest, view.manifest_digest, limits) == Ok::<
            (Option<ManifestView>, Seq<u8>),
            TicketError,
        >((view.manifest, rest)),
{
    lemma_be_limits();
    match view.manifest {
        Some(manifest) => {
            let count = manifest.entries.len() as u32 as nat;
            assert(count == manifest.entries.len());
            let entries = entries_bytes(manifest.entries);
            assert(manifest_bytes(view.manifest) + rest =~= seq![1u8] + (be_bytes(count, 4) + (
            entries + rest)));
            lemma_byte(1, be_bytes(count, 4) + (entries + rest));
            lemma_number(count, 4, entries + rest);
            lemma_entries(manifest.entries, limits, rest);
            assert(manifest == ManifestView {
                digest: view.manifest_digest,
                entries: manifest.entries,
            });
        },
        None => {
            lemma_byte(0, rest);
        },
    }
}

/// A ticket that was written is read, and what follows it is left.
proof fn lemma_ticket(view: TicketView, limits: TicketLimits, codes: RoleCodes, rest: Seq<u8>)
    requires
        ticket_fits(view, limits, codes),
        codes.offerer != codes.accepter,
    ensures
        take_all(ticket_bytes(view, codes) + rest, limits, codes) == Ok::<
            (TicketView, Seq<u8>),
            TicketError,
        >((view, rest)),
{
    lemma_be_limits();
    let pairing = be_bytes(view.pairing_id.value as nat, 16);
    let transfer = be_bytes(view.transfer_id.value as nat, 16);
    let role = seq![role_code(view.role, codes)];
    let digest = digest_bytes(view.manifest_digest);
    let expires = be_bytes(view.expires_at_millis as nat, 8);
    let ticket = blob_bytes(view.ticket);
    let manifest = manifest_bytes(view.manifest);
    let after_ticket = manifest + rest;
    let after_expires = ticket + after_ticket;
    let after_digest = expires + after_expires;
    let after_role = digest + after_digest;
    let after_transfer = role + after_role;
    let after_pairing = transfer + after_transfer;
    let after_header = pairing + after_pairing;
    let after_magic = seq![RESUME_TICKET_VERSION] + after_header;
    let front = magic() + seq![RESUME_TICKET_VERSION] + pairing + transfer + role + digest
        + expires + ticket;
    lemma_three(front, manifest, rest);
    lemma_nine(
        magic(),
        seq![RESUME_TICKET_VERSION],
        pairing,
        transfer,
        role,
        digest,
        expires,
        ticket,
        after_ticket,
    );
    let bytes = ticket_bytes(view, codes) + rest;
    assert(bytes == magic() + after_magic);
    lemma_take(magic(), after_magic);
    lemma_byte(RESUME_TICKET_VERSION, after_header);
    assert(take_header(bytes) == Ok::<((), Seq<u8>), TicketError>(((), after_header)));
    lemma_number(view.pairing_id.value as nat, 16, after_pairing);
    lemma_number(view.transfer_id.value as nat, 16, after_transfer);
    lemma_byte(role_code(view.role, codes), after_role);
    lemma_digest(view.manifest_digest, after_digest);
    lemma_number(view.expires_at_millis as nat, 8, after_expires);
    law_field_read_gives_what_was_written(view.ticket, limits.ticket, after_ticket);
    lemma_manifest(view, limits, codes, rest);
}

/// Reading a ticket gives the ticket that was written.
pub proof fn law_ticket_read_gives_what_was_written(
    view: TicketView,
    limits: TicketLimits,
    codes: RoleCodes,
)
    requires
        ticket_fits(view, limits, codes),
        codes.offerer != codes.accepter,
    ensures
        ticket_of(ticket_bytes(view, codes), limits, codes) == Ok::<TicketView, TicketError>(view),
{
    lemma_ticket(view, limits, codes, Seq::empty());
    assert(ticket_bytes(view, codes) + Seq::empty() =~= ticket_bytes(view, codes));
}

/// Nothing longer than a written ticket that starts with it is read.
pub proof fn law_trailing_data_is_refused(
    view: TicketView,
    limits: TicketLimits,
    codes: RoleCodes,
    more: Seq<u8>,
)
    requires
        ticket_fits(view, limits, codes),
        codes.offerer != codes.accepter,
        more.len() > 0,
    ensures
        ticket_of(ticket_bytes(view, codes) + more, limits, codes) is Err,
{
    lemma_ticket(view, limits, codes, more);
}

/// Two parts make the whole.
proof fn lemma_parts(bytes: Seq<u8>, length: int)
    requires
        0 <= length <= bytes.len(),
    ensures
        bytes.subrange(0, length) + from_place(bytes, length) == bytes,
{
    assert(bytes.subrange(0, length) + from_place(bytes, length) =~= bytes);
}

/// No part of a written ticket that ends before its end is read.
#[verifier::spinoff_prover]
#[verifier::rlimit(40)]
pub proof fn law_cut_ticket_is_refused(
    view: TicketView,
    limits: TicketLimits,
    codes: RoleCodes,
    length: int,
)
    requires
        ticket_fits(view, limits, codes),
        codes.offerer != codes.accepter,
        0 <= length < ticket_bytes(view, codes).len(),
    ensures
        ticket_of(ticket_bytes(view, codes).subrange(0, length), limits, codes) is Err,
{
    let bytes = ticket_bytes(view, codes);
    let part = bytes.subrange(0, length);
    if let Ok(other) = ticket_of(part, limits, codes) {
        let more = from_place(bytes, length);
        lemma_parts(bytes, length);
        law_only_written_tickets_are_read(part, limits, codes);
        law_trailing_data_is_refused(other, limits, codes, more);
        law_ticket_read_gives_what_was_written(view, limits, codes);
    }
}

proof fn lemma_taken(rest: Seq<u8>, count: nat)
    ensures
        match take(rest, count) {
            Ok((found, left)) => rest == found + left && found.len() == count,
            Err(_) => true,
        },
{
    if count <= rest.len() {
        assert(rest =~= rest.subrange(0, count as int) + from_place(rest, count as int));
    }
}

proof fn lemma_number_taken(rest: Seq<u8>, count: nat)
    ensures
        match take_number(rest, count) {
            Ok((value, left)) => rest == be_bytes(value, count) + left && value < be_limit(count),
            Err(_) => true,
        },
{
    lemma_taken(rest, count);
    if count <= rest.len() {
        law_be_write_gives_what_was_read(rest.subrange(0, count as int));
    }
}

proof fn lemma_byte_taken(rest: Seq<u8>)
    ensures
        match take_number(rest, 1) {
            Ok((value, left)) => value < 256 && rest == seq![value as u8] + left,
            Err(_) => true,
        },
{
    lemma_be_limits();
    lemma_number_taken(rest, 1);
    match take_number(rest, 1) {
        Ok((value, left)) => {
            lemma_byte(value as u8, left);
        },
        Err(_) => {},
    }
}

proof fn lemma_digest_taken(rest: Seq<u8>)
    ensures
        match take_digest(rest) {
            Ok((digest, left)) => rest == digest_bytes(digest) + left,
            Err(_) => true,
        },
{
    lemma_be_limits();
    lemma_byte_taken(rest);
    match take_number(rest, 1) {
        Ok((code, after)) => {
            lemma_taken(after, 32);
            match take(after, 32) {
                Ok((bytes, left)) => {
                    let high = bytes.subrange(0, 16);
                    let low = bytes.subrange(16, 32);
                    law_be_write_gives_what_was_read(high);
                    law_be_write_gives_what_was_read(low);
                    assert(bytes =~= high + low);
                    if code == 1 || code == 2 {
                        let digest = take_digest(rest)->Ok_0.0;
                        assert(digest_bytes(digest) + left =~= seq![code as u8] + (bytes + left));
                    }
                },
                Err(_) => {},
            }
        },
        Err(_) => {},
    }
}

/// Only bytes that a field within the limit writes are read as that field.
pub proof fn law_only_written_fields_are_read(rest: Seq<u8>, maximum: usize)
    ensures
        match take_blob(rest, maximum) {
            Ok((bytes, left)) => rest == blob_bytes(bytes) + left && is_field(bytes, maximum),
            Err(_) => true,
        },
{
    lemma_be_limits();
    lemma_number_taken(rest, 4);
    match take_number(rest, 4) {
        Ok((length, after)) => {
            lemma_taken(after, length);
            match take_blob(rest, maximum) {
                Ok((bytes, left)) => {
                    assert(bytes.len() == length);
                    assert(rest =~= blob_bytes(bytes) + left);
                },
                Err(_) => {},
            }
        },
        Err(_) => {},
    }
}

proof fn lemma_text_taken(rest: Seq<u8>, maximum: usize)
    ensures
        match take_text(rest, maximum) {
            Ok((text, left)) => rest == blob_bytes(encode_utf8(text)) + left && is_field(
                encode_utf8(text),
                maximum,
            ),
            Err(_) => true,
        },
{
    law_only_written_fields_are_read(rest, maximum);
    match take_blob(rest, maximum) {
        Ok((bytes, _)) => {
            if valid_utf8(bytes) {
                decode_utf8_encode_utf8(bytes);
            }
        },
        Err(_) => {},
    }
}

proof fn lemma_optional_taken(rest: Seq<u8>, count: nat)
    ensures
        match take_optional(rest, count) {
            Ok((value, left)) => rest == optional_bytes(value, count) + left && match value {
                Some(value) => value < be_limit(count),
                None => true,
            },
            Err(_) => true,
        },
{
    lemma_byte_taken(rest);
    match take_number(rest, 1) {
        Ok((flag, after)) => {
            if flag == 1 {
                lemma_number_taken(after, count);
                match take_number(after, count) {
                    Ok((value, left)) => {
                        assert(rest =~= optional_bytes(Some(value), count) + left);
                    },
                    Err(_) => {},
                }
            }
        },
        Err(_) => {},
    }
}

proof fn lemma_metadata_taken(rest: Seq<u8>)
    ensures
        match take_metadata(rest) {
            Ok((metadata, left)) => rest == metadata_bytes(metadata) + left,
            Err(_) => true,
        },
{
    lemma_be_limits();
    lemma_optional_taken(rest, 8);
    match take_optional(rest, 8) {
        Ok((time, after)) => {
            lemma_optional_taken(after, 4);
            match take_optional(after, 4) {
                Ok((mode, left)) => {
                    let metadata = take_metadata(rest)->Ok_0.0;
                    match time {
                        Some(time) => {
                            let bits = time as u64;
                            assert(bits as i64 as u64 == bits) by (bit_vector);
                        },
                        None => {},
                    }
                    assert(time_bits(metadata.modified_time_unix_seconds) == time);
                    assert(mode_bits(metadata.mode) == mode);
                    assert(rest =~= metadata_bytes(metadata) + left);
                },
                Err(_) => {},
            }
        },
        Err(_) => {},
    }
}

proof fn lemma_entry_taken(rest: Seq<u8>, limits: TicketLimits)
    ensures
        match take_entry(rest, limits) {
            Ok((entry, left)) => rest == entry_bytes(entry) + left && is_field(
                encode_utf8(entry.relative_path),
                limits.path,
            ),
            Err(_) => true,
        },
{
    lemma_be_limits();
    match take_entry(rest, limits) {
        Ok((entry, left)) => {
            lemma_number_taken(rest, 16);
            let after_id = take_number(rest, 16)->Ok_0.1;
            lemma_text_taken(after_id, limits.path);
            let after_path = take_text(after_id, limits.path)->Ok_0.1;
            lemma_number_taken(after_path, 8);
            let after_size = take_number(after_path, 8)->Ok_0.1;
            lemma_digest_taken(after_size);
            let after_hash = take_digest(after_size)->Ok_0.1;
            lemma_metadata_taken(after_hash);
            lemma_six(
                be_bytes(entry.file_id.value as nat, 16),
                blob_bytes(encode_utf8(entry.relative_path)),
                be_bytes(entry.size as nat, 8),
                digest_bytes(entry.content_hash),
                metadata_bytes(entry.metadata),
                left,
            );
            assert(rest == entry_bytes(entry) + left);
        },
        Err(_) => {},
    }
}

#[verifier::spinoff_prover]
proof fn lemma_entries_taken(rest: Seq<u8>, limits: TicketLimits, count: nat)
    ensures
        match take_entries(rest, limits, count) {
            Ok((entries, left)) => rest == entries_bytes(entries) + left && entries.len() == count
                && entries_fit(entries, limits),
            Err(_) => true,
        },
    decreases count,
{
    if count == 0 {
        assert(rest =~= entries_bytes(Seq::empty()) + rest);
    } else {
        lemma_entries_taken(rest, limits, (count - 1) as nat);
        match take_entries(rest, limits, count) {
            Ok((entries, left)) => {
                let (before, after) = take_entries(rest, limits, (count - 1) as nat)->Ok_0;
                lemma_entry_taken(after, limits);
                let entry = take_entry(after, limits)->Ok_0.0;
                assert(entries.drop_last() =~= before);
                assert(entries.last() == entry);
                lemma_three(entries_bytes(before), entry_bytes(entry), left);
                assert(rest == entries_bytes(entries) + left);
                assert forall|i: int| 0 <= i < entries.len() implies is_field(
                    encode_utf8((#[trigger] entries[i]).relative_path),
                    limits.path,
                ) by {
                    if i < before.len() {
                        assert(entries[i] == before[i]);
                    }
                }
            },
            Err(_) => {},
        }
    }
}

proof fn lemma_manifest_taken(rest: Seq<u8>, digest: Digest, limits: TicketLimits)
    ensures
        match take_manifest(rest, digest, limits) {
            Ok((manifest, left)) => rest == manifest_bytes(manifest) + left && match manifest {
                Some(manifest) => manifest.digest == digest && manifest.entries.len()
                    <= limits.files && manifest.entries.len() <= u32::MAX && entries_fit(
                    manifest.entries,
                    limits,
                ),
                None => true,
            },
            Err(_) => true,
        },
{
    lemma_be_limits();
    lemma_byte_taken(rest);
    match take_manifest(rest, digest, limits) {
        Ok((manifest, left)) => {
            let (flag, after) = take_number(rest, 1)->Ok_0;
            if flag == 1 {
                lemma_number_taken(after, 4);
                let (count, after_count) = take_number(after, 4)->Ok_0;
                lemma_entries_taken(after_count, limits, count);
                assert(rest =~= manifest_bytes(manifest) + left);
            }
        },
        Err(_) => {},
    }
}

/// Only bytes that a ticket within the limits writes are read as that ticket.
pub proof fn law_only_written_tickets_are_read(
    bytes: Seq<u8>,
    limits: TicketLimits,
    codes: RoleCodes,
)
    ensures
        match ticket_of(bytes, limits, codes) {
            Ok(view) => bytes == ticket_bytes(view, codes) && ticket_fits(view, limits, codes),
            Err(_) => true,
        },
{
    lemma_be_limits();
    match ticket_of(bytes, limits, codes) {
        Ok(view) => {
            lemma_taken(bytes, 8);
            let after_magic = take(bytes, 8)->Ok_0.1;
            lemma_byte_taken(after_magic);
            let after_header = take_header(bytes)->Ok_0.1;
            assert(bytes == magic() + (seq![RESUME_TICKET_VERSION] + after_header));
            lemma_number_taken(after_header, 16);
            let after_pairing = take_number(after_header, 16)->Ok_0.1;
            lemma_number_taken(after_pairing, 16);
            let after_transfer = take_number(after_pairing, 16)->Ok_0.1;
            lemma_byte_taken(after_transfer);
            let after_role = take_role(after_transfer, codes)->Ok_0.1;
            assert(after_transfer == seq![role_code(view.role, codes)] + after_role);
            lemma_digest_taken(after_role);
            let after_digest = take_digest(after_role)->Ok_0.1;
            lemma_number_taken(after_digest, 8);
            let after_expires = take_number(after_digest, 8)->Ok_0.1;
            law_only_written_fields_are_read(after_expires, limits.ticket);
            let after_ticket = take_ticket(after_expires, limits)->Ok_0.1;
            lemma_manifest_taken(after_ticket, view.manifest_digest, limits);
            let left = take_all(bytes, limits, codes)->Ok_0.1;
            assert(manifest_bytes(view.manifest) + left =~= manifest_bytes(view.manifest));
            lemma_nine(
                magic(),
                seq![RESUME_TICKET_VERSION],
                be_bytes(view.pairing_id.value as nat, 16),
                be_bytes(view.transfer_id.value as nat, 16),
                seq![role_code(view.role, codes)],
                digest_bytes(view.manifest_digest),
                be_bytes(view.expires_at_millis as nat, 8),
                blob_bytes(view.ticket),
                manifest_bytes(view.manifest),
            );
            assert(bytes == ticket_bytes(view, codes));
        },
        Err(_) => {},
    }
}

} // verus!
