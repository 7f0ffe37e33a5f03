//! Entry arrays: chained, sorted arrays of entry-object offsets.
//!
//! The sub-header holds the offset of the next array in the chain (zero
//! for the last one); items follow, 32-bit in compact mode and 64-bit
//! otherwise.  A zero item ends the used part of an array.

use vstd::prelude::*;
use crate::codec::{le_u32_at, le_u64_at, opt_nonzero_u64, read_opt_u64_at, read_u32_at, read_u64_at};
use crate::error::JournalError;
use crate::objects::{check_bounds, spec_bounds};

verus! {

/// Size in bytes of the entry-array sub-header.
pub const ENTRY_ARRAY_HEADER_SIZE: u64 = 8;

/// The sub-header of an entry array: where the chain continues, if
/// anywhere.
#[derive(Debug, Clone, Copy, PartialEq, Eq, Structural)]
pub struct EntryArrayObjectHeader {
    pub next_entry_array_offset: Option<u64>,
}

/// One item of a regular entry array: a 64-bit entry offset.
#[derive(Debug, Clone, Copy, PartialEq, Eq, Structural)]
pub struct EntryArrayRegularItem {
    pub offset: u64,
}

/// One item of a compact entry array: a 32-bit entry offset.
#[derive(Debug, Clone, Copy, PartialEq, Eq, Structural)]
pub struct EntryArrayCompactItem {
    pub offset: u32,
}

/// The entry-array sub-header stored at `off`.
pub open spec fn spec_read_entry_array_header(s: Seq<u8>, off: u64) -> Result<
    EntryArrayObjectHeader,
    JournalError,
> {
    match spec_bounds(s, off, 8) {
        Err(e) => Err(e),
        Ok(_) => Ok(
            EntryArrayObjectHeader { next_entry_array_offset: opt_nonzero_u64(le_u64_at(s, off as int)) },
        ),
    }
}

impl EntryArrayObjectHeader {
    /// Read the entry-array sub-header at byte offset `off`.
    pub fn read_at(bytes: &[u8], off: u64) -> (r: Result<EntryArrayObjectHeader, JournalError>)
        ensures
            r == spec_read_entry_array_header(bytes@, off),
    {
        match check_bounds(bytes, off, 8) {
            Err(e) => Err(e),
            Ok(_) => Ok(
                EntryArrayObjectHeader { next_entry_array_offset: read_opt_u64_at(bytes, off as usize) },
            ),
        }
    }
}

/// The entry offset an item at `off` names, widened to 64 bits; a
/// regular item whose offset does not fit 32 bits is invalid (entry
/// items store it narrow).
pub open spec fn spec_read_array_item(s: Seq<u8>, off: u64, compact: bool) -> Result<
    u64,
    JournalError,
> {
    if compact {
        match spec_bounds(s, off, 4) {
            Err(e) => Err(e),
            Ok(_) => Ok(le_u32_at(s, off as int) as u64),
        }
    } else {
        match spec_bounds(s, off, 8) {
            Err(e) => Err(e),
            Ok(_) => Ok(le_u64_at(s, off as int)),
        }
    }
}

/// Read the entry offset of the array item at `off`.
pub fn read_array_item(bytes: &[u8], off: u64, compact: bool) -> (r: Result<u64, JournalError>)
    ensures
        r == spec_read_array_item(bytes@, off, compact),
{
    if compact {
        match check_bounds(bytes, off, 4) {
            Err(e) => Err(e),
            Ok(_) => Ok(read_u32_at(bytes, off as usize) as u64),
        }
    } else {
        match check_bounds(bytes, off, 8) {
            Err(e) => Err(e),
            Ok(_) => Ok(read_u64_at(bytes, off as usize)),
        }
    }
}

impl EntryArrayRegularItem {
    /// Read a regular (64-bit) entry-array item at byte offset `off`.
    pub fn read_at(bytes: &[u8], off: u64) -> (r: Result<EntryArrayRegularItem, JournalError>)
        ensures
            match r {
                Ok(item) => spec_read_array_item(bytes@, off, false) == Ok::<u64, JournalError>(
                    item.offset,
                ),
                Err(e) => spec_read_array_item(bytes@, off, false) == Err::<u64, JournalError>(e),
            },
    {
        match read_array_item(bytes, off, false) {
            Ok(offset) => Ok(EntryArrayRegularItem { offset }),
            Err(e) => Err(e),
        }
    }
}

impl EntryArrayCompactItem {
    /// Read a compact (32-bit) entry-array item at byte offset `off`.
    pub fn read_at(bytes: &[u8], off: u64) -> (r: Result<EntryArrayCompactItem, JournalError>)
        ensures
            match r {
                Ok(item) => spec_read_array_item(bytes@, off, true) == Ok::<u64, JournalError>(
                    item.offset as u64,
                ),
                Err(e) => spec_read_array_item(bytes@, off, true) == Err::<u64, JournalError>(e),
            },
    {
        match check_bounds(bytes, off, 4) {
            Err(e) => Err(e),
            Ok(_) => Ok(EntryArrayCompactItem { offset: read_u32_at(bytes, off as usize) }),
        }
    }
}

} // verus!
