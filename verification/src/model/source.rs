//! Sources as they were found in the repository.
use vstd::prelude::*;

verus! {

/// What tells whether a file has changed.
#[derive(Clone, Copy, Debug, PartialEq, Eq, Structural)]
pub struct SourceFingerprint {
    /// Its size in bytes
    pub size: u64,
    /// When it was last changed, in whole seconds
    pub modified_seconds: i64,
    /// And the nanoseconds after these
    pub modified_nanoseconds: u32,
    /// Whether it may be run
    pub executable: bool,
}

/// A file beneath a directory.
#[derive(Debug, PartialEq)]
pub struct DirectoryLeaf {
    /// Its path beneath the directory
    pub relative: String,
    /// What tells whether it has changed
    pub fingerprint: SourceFingerprint,
}

/// What stands at a path, symbolic links not followed.
#[derive(Clone, Copy, Debug, PartialEq, Eq, Structural)]
pub enum EntryKind {
    /// Nothing
    Missing,
    /// A regular file
    File,
    /// A directory
    Directory,
    /// A symbolic link
    Symlink,
    /// Something else
    Other,
    /// It could not be found out
    Unreadable,
}

} // verus!
