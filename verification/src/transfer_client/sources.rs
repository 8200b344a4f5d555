//! Which files are sent from the paths that were given.

use vstd::prelude::*;
use vstd::string::*;

use crate::transfer_client::error::{ClientError, IoKind};

verus! {

/// What stands at a path.
#[derive(Debug, Clone, Copy, PartialEq, Eq, Structural)]
pub struct PathMetadata {
    pub is_symlink: bool,
    pub is_file: bool,
    pub is_dir: bool,
}

/// What to do about a path.
#[derive(Debug, Clone, Copy, PartialEq, Eq, Structural)]
pub enum SourceKind {
    File,
    Directory,
}

/// The error of a path that cannot be sent.
pub open spec fn spec_invalid_path(message: &'static str) -> ClientError {
    ClientError::Io { kind: IoKind::InvalidInput, message }
}

/// The error of a path that cannot be sent.
pub fn invalid_path(message: &'static str) -> (error: ClientError)
    ensures
        error == spec_invalid_path(message),
{
    ClientError::Io { kind: IoKind::InvalidInput, message }
}

/// What to do about what stands at a path. Links are not followed.
pub fn classify(metadata: PathMetadata) -> (result: Result<SourceKind, ClientError>)
    ensures
        result == if metadata.is_symlink {
            Err::<SourceKind, ClientError>(spec_invalid_path("symbolic links are not allowed"))
        } else if metadata.is_file {
            Ok::<SourceKind, ClientError>(SourceKind::File)
        } else if metadata.is_dir {
            Ok::<SourceKind, ClientError>(SourceKind::Directory)
        } else {
            Err::<SourceKind, ClientError>(spec_invalid_path("unsupported source file type"))
        },
{
    if metadata.is_symlink {
        Err(invalid_path("symbolic links are not allowed"))
    } else if metadata.is_file {
        Ok(SourceKind::File)
    } else if metadata.is_dir {
        Ok(SourceKind::Directory)
    } else {
        Err(invalid_path("unsupported source file type"))
    }
}

/// The path of what stands in a directory.
pub fn child_path(relative: &str, name: &str) -> (path: String)
    ensures
        path@ == relative@ + "/"@ + name@,
{
    relative.to_owned().concat("/").concat(name)
}

/// The paths of the files that are sent, each once.
pub struct SourceFiles {
    paths: Vec<String>,
}

impl View for SourceFiles {
    type V = Seq<Seq<char>>;

    closed spec fn view(&self) -> Seq<Seq<char>> {
        self.paths@.map_values(|path: String| path@)
    }
}

impl SourceFiles {
    /// No files.
    pub fn new() -> (files: Self)
        ensures
            files@ == Seq::<Seq<char>>::empty(),
    {
        let files = SourceFiles { paths: Vec::new() };
        assert(files@ =~= Seq::empty());
        files
    }

    /// Adds a file, and tells its place. Two files cannot have the same path.
    pub fn insert(&mut self, relative: String) -> (result: Result<usize, ClientError>)
        ensures
            match result {
                Ok(place) => {
                    &&& !old(self)@.contains(relative@)
                    &&& final(self)@ == old(self)@.push(relative@)
                    &&& place == old(self)@.len()
                },
                Err(error) => {
                    &&& old(self)@.contains(relative@)
                    &&& final(self)@ == old(self)@
                    &&& error == spec_invalid_path("source paths collide")
                },
            },
    {
        if self.position(&relative).is_some() {
            return Err(invalid_path("source paths collide"));
        }
        let ghost before = self@;
        let place: usize = self.paths.len();
        self.paths.push(relative);
        assert(self@ =~= before.push(relative@));
        Ok(place)
    }

    /// The place of a file.
    pub fn position(&self, relative: &String) -> (place: Option<usize>)
        ensures
            match place {
                Some(place) => place < self@.len() && self@[place as int] == relative@,
                None => !self@.contains(relative@),
            },
    {
        let mut index: usize = 0;
        while index < self.paths.len()
            invariant
                index <= self.paths@.len(),
                forall|i: int| 0 <= i < index ==> #[trigger] self@[i] != relative@,
            decreases self.paths@.len() - index,
        {
            if self.paths[index] == *relative {
                return Some(index);
            }
            index = index + 1;
        }
        None
    }

    /// The place of the file with this path, which must be there.
    pub fn source_of(&self, relative: &String) -> (result: Result<usize, ClientError>)
        ensures
            match result {
                Ok(place) => place < self@.len() && self@[place as int] == relative@,
                Err(error) => !self@.contains(relative@) && error == ClientError::InvalidState(
                    "source file mapping missing",
                ),
            },
    {
        match self.position(relative) {
            Some(place) => Ok(place),
            None => Err(ClientError::InvalidState("source file mapping missing")),
        }
    }
}

} // verus!
