//! What a transfer consists of.

use vstd::prelude::*;

use crate::bytes::{be_value, read_be};
use crate::ids::Id;

verus! {

/// Names a file.
pub type FileId = Id;

/// How a digest is computed.
#[derive(Debug, Clone, Copy, PartialEq, Eq, Structural)]
pub enum HashAlgorithm {
    Blake3,
    Sha256,
}

/// A digest of thirty-two bytes.
#[derive(Debug, Clone, Copy, PartialEq, Eq, Structural)]
pub struct Digest {
    pub algorithm: HashAlgorithm,
    pub high: u128,
    pub low: u128,
}

impl Digest {
    /// The digest with these bytes.
    pub fn new(algorithm: HashAlgorithm, bytes: [u8; 32]) -> (digest: Self)
        ensures
            digest.algorithm == algorithm,
            digest.high == be_value(bytes@.subrange(0, 16)),
            digest.low == be_value(bytes@.subrange(16, 32)),
    {
        Digest { algorithm, high: read_be(&bytes, 0, 16), low: read_be(&bytes, 16, 16) }
    }
}

/// What is known of a file besides its contents.
#[derive(Debug, Clone, Copy, PartialEq, Eq, Structural)]
pub struct FileMetadata {
    pub modified_time_unix_seconds: Option<i64>,
    pub mode: Option<u32>,
}

/// A file of a transfer.
#[derive(Debug, Clone, PartialEq, Eq)]
pub struct ManifestEntry {
    pub file_id: FileId,
    pub relative_path: String,
    pub size: u64,
    pub content_hash: Digest,
    pub metadata: FileMetadata,
}

/// The files of a transfer.
#[derive(Debug, Clone, PartialEq, Eq)]
pub struct Manifest {
    pub digest: Digest,
    pub entries: Vec<ManifestEntry>,
}

/// What is known of a file of a transfer.
#[verifier::ext_equal]
pub struct EntryView {
    pub file_id: FileId,
    pub relative_path: Seq<char>,
    pub size: u64,
    pub content_hash: Digest,
    pub metadata: FileMetadata,
}

/// What is known of the files of a transfer.
#[verifier::ext_equal]
pub struct ManifestView {
    pub digest: Digest,
    pub entries: Seq<EntryView>,
}

impl View for ManifestEntry {
    type V = EntryView;

    open spec fn view(&self) -> EntryView {
        EntryView {
            file_id: self.file_id,
            relative_path: self.relative_path@,
            size: self.size,
            content_hash: self.content_hash,
            metadata: self.metadata,
        }
    }
}

/// What is known of files.
pub open spec fn entry_views(entries: Seq<ManifestEntry>) -> Seq<EntryView> {
    entries.map_values(|entry: ManifestEntry| entry@)
}

impl View for Manifest {
    type V = ManifestView;

    open spec fn view(&self) -> ManifestView {
        ManifestView { digest: self.digest, entries: entry_views(self.entries@) }
    }
}

/// The first file with this name, from the one at `from` on.
pub open spec fn entry_at(entries: Seq<EntryView>, file_id: FileId, from: int) -> Option<int>
    decreases entries.len() - from,
{
    if from < 0 || from >= entries.len() {
        None
    } else if entries[from].file_id == file_id {
        Some(from)
    } else {
        entry_at(entries, file_id, from + 1)
    }
}

impl Manifest {
    /// How many files there are.
    pub fn file_count(&self) -> (count: u64)
        ensures
            count == self@.entries.len(),
    {
        self.entries.len() as u64
    }

    /// The place of the file with this name.
    pub fn position(&self, file_id: FileId) -> (position: Option<usize>)
        ensures
            match position {
                Some(position) => entry_at(self@.entries, file_id, 0) == Some(position as int)
                    && position < self.entries@.len() && self.entries@[position as int].file_id
                    == file_id,
                None => entry_at(self@.entries, file_id, 0) is None,
            },
    {
        let mut index: usize = 0;
        while index < self.entries.len()
            invariant
                index <= self.entries@.len(),
                entry_at(self@.entries, file_id, 0) == entry_at(
                    self@.entries,
                    file_id,
                    index as int,
                ),
            decreases self.entries@.len() - index,
        {
            if self.entries[index].file_id == file_id {
                return Some(index);
            }
            index = index + 1;
        }
        None
    }

    /// The same manifest once more.
    pub fn copy(&self) -> (copy: Manifest)
        ensures
            copy@ == self@,
    {
        let mut entries: Vec<ManifestEntry> = Vec::new();
        let mut index: usize = 0;
        while index < self.entries.len()
            invariant
                index <= self.entries@.len(),
                entries@.len() == index,
                forall|i: int| 0 <= i < index ==> (#[trigger] entries@[i])@ == self.entries@[i]@,
            decreases self.entries@.len() - index,
        {
            let entry = &self.entries[index];
            entries.push(
                ManifestEntry {
                    file_id: entry.file_id,
                    relative_path: entry.relative_path.clone(),
                    size: entry.size,
                    content_hash: entry.content_hash,
                    metadata: entry.metadata,
                },
            );
            index = index + 1;
        }
        assert(entry_views(entries@) =~= entry_views(self.entries@));
        Manifest { digest: self.digest, entries }
    }
}

} // verus!
