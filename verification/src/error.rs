//! The errors a container operation can report.

use vstd::prelude::*;

verus! {

/// Why a container operation failed.
#[derive(Clone, Copy, Debug, PartialEq, Eq, Structural)]
pub enum CfbError {
    /// The byte image is not a well-formed container: wrong magic number,
    /// unsupported version, inconsistent counts, a chain cycle, a sentinel
    /// where a real sector index was expected, or a truncated image.
    BadFormat,
    /// The caller's argument is rejected: a name of more than 31 UTF-16 code
    /// units, renaming the root entry, or a seek out of bounds.
    InvalidArgument,
    /// A child with the given name does not exist.
    NotFound,
    /// A storage was opened as a stream.
    WrongKind,
}

impl CfbError {
    /// A short description of the error.
    pub fn describe(self) -> (r: &'static str)
        ensures
            r@.len() > 0,
    {
        proof {
            reveal_strlit("malformed compound file");
            reveal_strlit("invalid argument");
            reveal_strlit("not found");
            reveal_strlit("wrong kind of directory entry");
        }
        match self {
            CfbError::BadFormat => "malformed compound file",
            CfbError::InvalidArgument => "invalid argument",
            CfbError::NotFound => "not found",
            CfbError::WrongKind => "wrong kind of directory entry",
        }
    }
}

} // verus!
