//! Why a rewrite of an archive can fail.

use vstd::prelude::*;

verus! {

/// The reasons a rewrite stops before anything is written back.
#[derive(Debug, Clone, Copy, PartialEq, Eq, Structural)]
pub enum RewriteError {
    /// The archive cannot be read: a corrupt container, a missing central
    /// directory, an entry that does not decompress.
    ArchiveFormat,
    /// The new archive or its metadata entry could not be written.
    Encode,
}


/// The kinds of failure of one target of a batch.
#[derive(Debug, Clone, Copy, PartialEq, Eq, Structural)]
pub enum ErrorKind {
    /// The archive file could not be opened, read or written.
    Filesystem,
    /// The archive could not be read as an archive.
    ArchiveFormat,
    /// The new archive could not be written.
    Encode,
    /// The task that ran the rewrite ended abnormally.
    WorkerFailure,
}

/// The first failure of a batch: which target, and why.
#[derive(Debug, Clone, Copy, PartialEq, Eq, Structural)]
pub struct BatchError {
    /// Index of the failed target in the batch.
    pub target: usize,
    /// What went wrong.
    pub kind: ErrorKind,
}

impl RewriteError {
    /// The batch failure kind of a rewrite error.
    pub fn kind(&self) -> (r: ErrorKind)
        ensures
            *self == RewriteError::ArchiveFormat ==> r == ErrorKind::ArchiveFormat,
            *self == RewriteError::Encode ==> r == ErrorKind::Encode,
    {
        match self {
            RewriteError::ArchiveFormat => ErrorKind::ArchiveFormat,
            RewriteError::Encode => ErrorKind::Encode,
        }
    }
}

} // verus!
