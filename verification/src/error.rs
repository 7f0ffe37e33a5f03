//! Error taxonomy of the journal reader.

use vstd::prelude::*;

verus! {

/// What went wrong while reading a journal.
///
/// Every fallible operation of this crate reports one of these kinds:
///
/// * `InvalidData`: the bytes violate the file format (bad magic, unknown
///   incompatible flags, an object of the wrong type at an offset, an
///   entry-item offset too large, a malformed payload).
/// * `NotFound`: no file exists under the requested selection.
/// * `NotConnected`: the operation needs a selection or a loaded file but
///   none is set.
/// * `UnexpectedEof`: the file is truncated below its declared structure
///   bounds.
#[derive(Debug, Clone, Copy, PartialEq, Eq, Structural)]
pub enum JournalError {
    InvalidData,
    NotFound,
    NotConnected,
    UnexpectedEof,
}

impl JournalError {
    /// A short, deterministic description of the error kind.
    pub fn describe(&self) -> (r: &'static str)
        ensures
            self is InvalidData ==> r@ == "invalid data"@,
            self is NotFound ==> r@ == "not found"@,
            self is NotConnected ==> r@ == "not connected"@,
            self is UnexpectedEof ==> r@ == "unexpected end of file"@,
    {
        match self {
            JournalError::InvalidData => "invalid data",
            JournalError::NotFound => "not found",
            JournalError::NotConnected => "not connected",
            JournalError::UnexpectedEof => "unexpected end of file",
        }
    }
}

} // verus!
