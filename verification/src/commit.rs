//! Commit records and the entries they list.

use vstd::prelude::*;

verus! {

/// A staged file: its path and the digest of its content.
#[derive(Debug, Clone, PartialEq, Eq)]
pub struct FileEntry {
    pub path: String,
    pub hash: String,
}

impl View for FileEntry {
    type V = (Seq<char>, Seq<char>);

    open spec fn view(&self) -> (Seq<char>, Seq<char>) {
        (self.path@, self.hash@)
    }
}

impl FileEntry {
    pub fn new(path: String, hash: String) -> (entry: Self)
        ensures
            entry.path == path,
            entry.hash == hash,
            entry@ == (path@, hash@),
    {
        Self { path, hash }
    }
}

/// The entries of `files` as pairs of path and digest.
pub open spec fn entry_views(files: Seq<FileEntry>) -> Seq<(Seq<char>, Seq<char>)> {
    Seq::new(files.len(), |i: int| files[i]@)
}

/// An instant in UTC: whole seconds since the Unix epoch, and the nanoseconds
/// into that second.
#[derive(Debug, Clone, Copy, PartialEq, Eq)]
pub struct Timestamp {
    pub secs: i64,
    pub nanos: u32,
}

/// What a commit records: a message, the time it was made, and the staged
/// files in staging order.
#[derive(Debug, Clone, PartialEq, Eq)]
pub struct Commit {
    pub message: String,
    pub timestamp: Timestamp,
    pub files: Vec<FileEntry>,
}

/// Reads the clock with `chrono::Utc::now` and takes the instant apart with
/// `DateTime::timestamp` and `DateTime::timestamp_subsec_nanos`. Nothing is
/// claimed of the instant that comes back. `Utc::now` panics where the system
/// clock stands before the Unix epoch.
#[verifier::external_body]
fn utc_now() -> (now: Timestamp) {
    let now = chrono::Utc::now();
    Timestamp { secs: now.timestamp(), nanos: now.timestamp_subsec_nanos() }
}

impl Commit {
    /// A commit of `files` with `message`, stamped with the clock's reading at
    /// the call.
    pub fn new(message: String, files: Vec<FileEntry>) -> (commit: Self)
        ensures
            commit.message == message,
            commit.files == files,
    {
        Self::at(message, utc_now(), files)
    }

    /// A commit of `files` with `message`, made at `timestamp`.
    pub fn at(message: String, timestamp: Timestamp, files: Vec<FileEntry>) -> (commit: Self)
        ensures
            commit.message == message,
            commit.timestamp == timestamp,
            commit.files == files,
    {
        Self { message, timestamp, files }
    }
}

} // verus!
