//! Field objects: a field name and the heads of its chains.

use vstd::prelude::*;
use crate::codec::{le_u64_at, read_u64_at};
use crate::error::JournalError;
use crate::objects::{check_bounds, spec_bounds};

verus! {

/// Size in bytes of the field sub-header.
pub const FIELD_OBJECT_HEADER_SIZE: u64 = 24;

/// The sub-header of a field object.
#[derive(Debug, Clone, Copy, PartialEq, Eq, Structural)]
pub struct FieldObjectHeader {
    pub hash: u64,
    pub next_hash_offset: u64,
    pub next_data_offset: u64,
}

/// The field sub-header stored at `off`.
pub open spec fn spec_read_field_header(s: Seq<u8>, off: u64) -> Result<
    FieldObjectHeader,
    JournalError,
> {
    match spec_bounds(s, off, 24) {
        Err(e) => Err(e),
        Ok(_) => Ok(
            FieldObjectHeader {
                hash: le_u64_at(s, off as int),
                next_hash_offset: le_u64_at(s, off + 8),
                next_data_offset: le_u64_at(s, off + 16),
            },
        ),
    }
}

impl FieldObjectHeader {
    /// Read the field sub-header at byte offset `off`.
    pub fn read_at(bytes: &[u8], off: u64) -> (r: Result<FieldObjectHeader, JournalError>)
        ensures
            r == spec_read_field_header(bytes@, off),
    {
        match check_bounds(bytes, off, 24) {
            Err(e) => Err(e),
            Ok(_) => Ok(
                FieldObjectHeader {
                    hash: read_u64_at(bytes, off as usize),
                    next_hash_offset: read_u64_at(bytes, (off + 8) as usize),
                    next_data_offset: read_u64_at(bytes, (off + 16) as usize),
                },
            ),
        }
    }
}

} // verus!
