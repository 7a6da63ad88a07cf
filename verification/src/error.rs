//! The failures that repository operations report.

use vstd::prelude::*;

verus! {

/// Why an operation on the repository failed.
#[derive(Debug, Clone, Copy, PartialEq, Eq, Structural)]
pub enum Error {
    /// A file could not be read, written or opened.
    Io,
    /// The head is unset, or the object it names is not stored.
    NotFound,
    /// Stored bytes do not have the shape of an object.
    CorruptObject,
    /// A commit record could not be encoded or decoded.
    Serialization,
}

impl Error {
    /// A short description for people.
    pub fn message(&self) -> (text: &'static str)
        ensures
            text@ == match *self {
                Error::Io => "I/O failure"@,
                Error::NotFound => "object or head not found"@,
                Error::CorruptObject => "Invalid blob format: missing null separator"@,
                Error::Serialization => "commit record could not be encoded or decoded"@,
            },
    {
        match self {
            Error::Io => "I/O failure",
            Error::NotFound => "object or head not found",
            Error::CorruptObject => "Invalid blob format: missing null separator",
            Error::Serialization => "commit record could not be encoded or decoded",
        }
    }
}

} // verus!
