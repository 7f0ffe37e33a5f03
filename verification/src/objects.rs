//! Objects of the journal arena.
//!
//! Every object starts with the same 16-byte header: a type byte, a
//! compression byte, six reserved bytes and a 64-bit size that includes
//! the header itself.  Type-specific sub-headers follow.

use vstd::prelude::*;
use crate::codec::{le_u64_at};
use crate::error::JournalError;

pub mod data;
pub mod entry;
pub mod entry_array;
pub mod field;
pub mod tag;

verus! {

/// Size in bytes of the generic object header.
pub const OBJECT_HEADER_SIZE: u64 = 16;

/// Objects never lie inside the file header, so no valid offset is
/// below the smallest header size; an offset that is counts as
/// corruption.
pub const MIN_OBJECT_OFFSET: u64 = 208;

/// The type of an object.  Unknown type bytes are carried through (such
/// objects are skipped via their size), never rejected.
#[derive(Debug, Clone, Copy, PartialEq, Eq, Structural)]
pub enum ObjectType {
    /// One field of an entry: a string such as `MESSAGE=...`.
    Data,
    /// A field name without its value, such as `MESSAGE`.
    Field,
    /// One log entry: binds several `Data` objects together.
    Entry,
    /// Hash table for finding existing `Data` objects.
    DataHashTable,
    /// Hash table for finding existing `Field` objects.
    FieldHashTable,
    /// A chained, sorted array of entry offsets.
    EntryArray,
    /// A Forward Secure Sealing tag.
    Tag,
    /// Any type byte this crate does not know.
    Unknown(u8),
}

/// Compression applied to a `Data` object's payload.
#[derive(Debug, Clone, Copy, PartialEq, Eq, Structural)]
pub enum DataCompression {
    /// The payload is stored as-is.
    Plain,
    /// XZ.
    Xz,
    /// LZ4.
    Lz4,
    /// Zstd.
    Zstd,
}

/// The decoded type byte.
pub open spec fn spec_object_type(b: u8) -> ObjectType {
    if b == 1 {
        ObjectType::Data
    } else if b == 2 {
        ObjectType::Field
    } else if b == 3 {
        ObjectType::Entry
    } else if b == 4 {
        ObjectType::DataHashTable
    } else if b == 5 {
        ObjectType::FieldHashTable
    } else if b == 6 {
        ObjectType::EntryArray
    } else if b == 7 {
        ObjectType::Tag
    } else {
        ObjectType::Unknown(b)
    }
}

/// The decoded compression byte; only one algorithm bit may be set.
pub open spec fn spec_compression(b: u8) -> Option<DataCompression> {
    if b == 0 {
        Some(DataCompression::Plain)
    } else if b == 1 {
        Some(DataCompression::Xz)
    } else if b == 2 {
        Some(DataCompression::Lz4)
    } else if b == 4 {
        Some(DataCompression::Zstd)
    } else {
        None
    }
}

/// The generic header every object starts with.
#[derive(Debug, Clone, Copy, PartialEq, Eq, Structural)]
pub struct ObjectHeader {
    pub object_type: ObjectType,
    pub compression: DataCompression,
    /// Total size of the object, header included.
    pub size: u64,
}

/// Whether `n` bytes at offset `off` can be read: the offset must not
/// point into the file header (a corrupt link) and the range must lie
/// within the file (else it is truncated).
pub open spec fn spec_bounds(s: Seq<u8>, off: u64, n: u64) -> Result<(), JournalError> {
    if off < MIN_OBJECT_OFFSET {
        Err(JournalError::InvalidData)
    } else if off + n > s.len() {
        Err(JournalError::UnexpectedEof)
    } else {
        Ok(())
    }
}

/// Check that `n` bytes at `off` lie inside the arena of `bytes`.
pub fn check_bounds(bytes: &[u8], off: u64, n: u64) -> (r: Result<(), JournalError>)
    ensures
        r == spec_bounds(bytes@, off, n),
        bytes@.len() <= usize::MAX,
        r is Ok ==> off + n <= bytes@.len() && off >= MIN_OBJECT_OFFSET,
{
    let len = bytes.len();
    if off < MIN_OBJECT_OFFSET {
        Err(JournalError::InvalidData)
    } else if off > len as u64 || n > len as u64 - off {
        Err(JournalError::UnexpectedEof)
    } else {
        Ok(())
    }
}

/// The object header stored at `off`, or why there is none.
pub open spec fn spec_read_object_header(s: Seq<u8>, off: u64) -> Result<
    ObjectHeader,
    JournalError,
> {
    match spec_bounds(s, off, 16) {
        Err(e) => Err(e),
        Ok(_) => {
            match spec_compression(s[off + 1]) {
                None => Err(JournalError::InvalidData),
                Some(compression) => Ok(
                    ObjectHeader {
                        object_type: spec_object_type(s[off as int]),
                        compression,
                        size: le_u64_at(s, off + 8),
                    },
                ),
            }
        },
    }
}

impl ObjectHeader {
    /// Read the generic object header at byte offset `off`.
    pub fn read_at(bytes: &[u8], off: u64) -> (r: Result<ObjectHeader, JournalError>)
        ensures
            r == spec_read_object_header(bytes@, off),
    {
        match check_bounds(bytes, off, 16) {
            Err(e) => Err(e),
            Ok(_) => {
                let type_byte = bytes[off as usize];
                let compression_byte = bytes[(off + 1) as usize];
                let compression = match compression_byte {
                    0 => DataCompression::Plain,
                    1 => DataCompression::Xz,
                    2 => DataCompression::Lz4,
                    4 => DataCompression::Zstd,
                    _ => {
                        return Err(JournalError::InvalidData);
                    },
                };
                let object_type = match type_byte {
                    1 => ObjectType::Data,
                    2 => ObjectType::Field,
                    3 => ObjectType::Entry,
                    4 => ObjectType::DataHashTable,
                    5 => ObjectType::FieldHashTable,
                    6 => ObjectType::EntryArray,
                    7 => ObjectType::Tag,
                    b => ObjectType::Unknown(b),
                };
                let size = crate::codec::read_u64_at(bytes, (off + 8) as usize);
                Ok(ObjectHeader { object_type, compression, size })
            },
        }
    }

    /// Bytes of the object past the generic header; zero if the declared
    /// size is shorter than the header itself.
    pub open spec fn spec_payload_size(self) -> u64 {
        if self.size >= 16 {
            (self.size - 16) as u64
        } else {
            0
        }
    }

    /// Bytes of the object past the generic header.
    pub fn payload_size(&self) -> (r: u64)
        ensures
            r == self.spec_payload_size(),
    {
        if self.size >= OBJECT_HEADER_SIZE {
            self.size - OBJECT_HEADER_SIZE
        } else {
            0
        }
    }

    /// Fail with invalid data unless the object has the expected type.
    pub fn check_type(self, check: ObjectType) -> (r: Result<ObjectHeader, JournalError>)
        ensures
            self.object_type == check ==> r == Ok::<ObjectHeader, JournalError>(self),
            self.object_type != check ==> r == Err::<ObjectHeader, JournalError>(
                JournalError::InvalidData,
            ),
    {
        if self.object_type == check {
            Ok(self)
        } else {
            Err(JournalError::InvalidData)
        }
    }
}

} // verus!
