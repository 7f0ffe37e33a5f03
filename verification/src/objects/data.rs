//! Data objects: the keyed payloads entries point at.
//!
//! After the generic header comes a 48-byte sub-header; in compact mode
//! an 8-byte secondary header follows.  The rest of the object is the
//! payload, shaped `KEY=VALUE` (split on the first `=`) unless the
//! object is compressed, in which case the raw bytes are handed to a
//! decompressing collaborator.

use vstd::prelude::*;
use vstd::slice::{slice_subrange, slice_to_vec};
use crate::codec::{le_u32_at, le_u64_at, read_u32_at, read_u64_at};
use crate::error::JournalError;
use crate::filename::find_from;
use crate::objects::{
    check_bounds, spec_bounds, spec_read_object_header, DataCompression, ObjectHeader, ObjectType,
};

verus! {

/// Size in bytes of the data sub-header.
pub const DATA_OBJECT_HEADER_SIZE: u64 = 48;

/// Size in bytes of the compact-mode secondary data header.
pub const DATA_OBJECT_COMPACT_PAYLOAD_HEADER_SIZE: u64 = 8;

/// The byte that splits a payload into key and value.
pub const EQUALS: u8 = 0x3d;

/// The sub-header of a data object: its hash, its chain links, and the
/// entries that use it.
#[derive(Debug, Clone, Copy, PartialEq, Eq, Structural)]
pub struct DataObjectHeader {
    pub hash: u64,
    pub next_hash_offset: u64,
    pub next_field_offset: u64,
    pub entry_offset: u64,
    pub entry_array_offset: u64,
    pub n_entries: u64,
}

/// The compact-mode secondary header of a data object.
#[derive(Debug, Clone, Copy, PartialEq, Eq, Structural)]
pub struct DataObjectCompactPayloadHeader {
    pub tail_entry_array_offset: u32,
    pub tail_entry_array_n_entries: u32,
}

/// A data object's payload: a key/value pair, or — when the object is
/// compressed — the raw bytes together with the algorithm a
/// decompressing collaborator must apply.
#[derive(Debug, Clone, PartialEq, Eq)]
pub enum DataPayload {
    KeyValue { key: Vec<u8>, value: Vec<u8> },
    Compressed { compression: DataCompression, bytes: Vec<u8> },
}

/// Mathematical model of a [`DataPayload`].
pub enum DataPayloadView {
    KeyValue { key: Seq<u8>, value: Seq<u8> },
    Compressed { compression: DataCompression, bytes: Seq<u8> },
}

impl View for DataPayload {
    type V = DataPayloadView;

    open spec fn view(&self) -> DataPayloadView {
        match self {
            DataPayload::KeyValue { key, value } => DataPayloadView::KeyValue {
                key: key@,
                value: value@,
            },
            DataPayload::Compressed { compression, bytes } => DataPayloadView::Compressed {
                compression: *compression,
                bytes: bytes@,
            },
        }
    }
}

/// One materialized data object.
#[derive(Debug, Clone, PartialEq, Eq)]
pub struct Data {
    /// Offset of the data object in its file; nonzero.
    pub offset: u64,
    pub header: DataObjectHeader,
    /// The compact-mode secondary header, when the file is compact.
    pub entry_array: Option<DataObjectCompactPayloadHeader>,
    pub payload: DataPayload,
}

/// Mathematical model of a [`Data`].
pub struct DataView {
    pub offset: u64,
    pub header: DataObjectHeader,
    pub entry_array: Option<DataObjectCompactPayloadHeader>,
    pub payload: DataPayloadView,
}

impl View for Data {
    type V = DataView;

    open spec fn view(&self) -> DataView {
        DataView {
            offset: self.offset,
            header: self.header,
            entry_array: self.entry_array,
            payload: self.payload@,
        }
    }
}

/// The data sub-header stored at `off`.
pub open spec fn spec_read_data_header(s: Seq<u8>, off: u64) -> Result<
    DataObjectHeader,
    JournalError,
> {
    match spec_bounds(s, off, 48) {
        Err(e) => Err(e),
        Ok(_) => Ok(
            DataObjectHeader {
                hash: le_u64_at(s, off as int),
                next_hash_offset: le_u64_at(s, off + 8),
                next_field_offset: le_u64_at(s, off + 16),
                entry_offset: le_u64_at(s, off + 24),
                entry_array_offset: le_u64_at(s, off + 32),
                n_entries: le_u64_at(s, off + 40),
            },
        ),
    }
}

impl DataObjectHeader {
    /// Read the data sub-header at byte offset `off`.
    pub fn read_at(bytes: &[u8], off: u64) -> (r: Result<DataObjectHeader, JournalError>)
        ensures
            r == spec_read_data_header(bytes@, off),
    {
        match check_bounds(bytes, off, 48) {
            Err(e) => Err(e),
            Ok(_) => Ok(
                DataObjectHeader {
                    hash: read_u64_at(bytes, off as usize),
                    next_hash_offset: read_u64_at(bytes, (off + 8) as usize),
                    next_field_offset: read_u64_at(bytes, (off + 16) as usize),
                    entry_offset: read_u64_at(bytes, (off + 24) as usize),
                    entry_array_offset: read_u64_at(bytes, (off + 32) as usize),
                    n_entries: read_u64_at(bytes, (off + 40) as usize),
                },
            ),
        }
    }
}

/// The compact-mode secondary header stored at `off`.
pub open spec fn spec_read_compact_payload_header(s: Seq<u8>, off: u64) -> Result<
    DataObjectCompactPayloadHeader,
    JournalError,
> {
    match spec_bounds(s, off, 8) {
        Err(e) => Err(e),
        Ok(_) => Ok(
            DataObjectCompactPayloadHeader {
                tail_entry_array_offset: le_u32_at(s, off as int),
                tail_entry_array_n_entries: le_u32_at(s, off + 4),
            },
        ),
    }
}

impl DataObjectCompactPayloadHeader {
    /// Read the compact-mode secondary data header at byte offset `off`.
    pub fn read_at(bytes: &[u8], off: u64) -> (r: Result<
        DataObjectCompactPayloadHeader,
        JournalError,
    >)
        ensures
            r == spec_read_compact_payload_header(bytes@, off),
    {
        match check_bounds(bytes, off, 8) {
            Err(e) => Err(e),
            Ok(_) => Ok(
                DataObjectCompactPayloadHeader {
                    tail_entry_array_offset: read_u32_at(bytes, off as usize),
                    tail_entry_array_n_entries: read_u32_at(bytes, (off + 4) as usize),
                },
            ),
        }
    }
}

/// A plain payload split at its first `=`: the key before it, the raw
/// value after it; a payload without `=` is malformed.
pub open spec fn spec_split_payload(p: Seq<u8>) -> Result<DataPayloadView, JournalError> {
    match find_from(p, 0, EQUALS) {
        None => Err(JournalError::InvalidData),
        Some(e) => Ok(
            DataPayloadView::KeyValue {
                key: p.subrange(0, e),
                value: p.subrange(e + 1, p.len() as int),
            },
        ),
    }
}

/// How many bytes of sub-headers a data object consumes.
pub open spec fn spec_data_consumed(compact: bool) -> u64 {
    if compact {
        72
    } else {
        64
    }
}

/// The data object stored at `off` of a file in the given mode.
pub open spec fn spec_read_data(s: Seq<u8>, off: u64, compact: bool) -> Result<
    DataView,
    JournalError,
> {
    match spec_read_object_header(s, off) {
        Err(e) => Err(e),
        Ok(o) => {
            if o.object_type != ObjectType::Data {
                Err(JournalError::InvalidData)
            } else {
                match spec_read_data_header(s, (off + 16) as u64) {
                    Err(e) => Err(e),
                    Ok(header) => {
                        let entry_array = if compact {
                            match spec_read_compact_payload_header(s, (off + 64) as u64) {
                                Err(_) => None,
                                Ok(c) => Some(c),
                            }
                        } else {
                            None
                        };
                        if compact && spec_read_compact_payload_header(s, (off + 64) as u64) is Err {
                            match spec_read_compact_payload_header(s, (off + 64) as u64) {
                                Err(e) => Err(e),
                                Ok(_) => Err(JournalError::InvalidData),
                            }
                        } else {
                            let consumed = spec_data_consumed(compact);
                            let region = if o.size >= consumed {
                                (o.size - consumed) as u64
                            } else {
                                0
                            };
                            match spec_bounds(s, (off + consumed) as u64, region) {
                                Err(e) => Err(e),
                                Ok(_) => {
                                    let p = s.subrange(
                                        off + consumed,
                                        off + consumed + region,
                                    );
                                    if o.compression == DataCompression::Plain {
                                        match spec_split_payload(p) {
                                            Err(e) => Err(e),
                                            Ok(payload) => Ok(
                                                DataView { offset: off, header, entry_array, payload },
                                            ),
                                        }
                                    } else {
                                        Ok(
                                            DataView {
                                                offset: off,
                                                header,
                                                entry_array,
                                                payload: DataPayloadView::Compressed {
                                                    compression: o.compression,
                                                    bytes: p,
                                                },
                                            },
                                        )
                                    }
                                },
                            }
                        }
                    },
                }
            }
        },
    }
}

impl Data {
    /// Read the data object at byte offset `off`.
    pub fn read_at(bytes: &[u8], off: u64, compact: bool) -> (r: Result<Data, JournalError>)
        ensures
            match r {
                Ok(d) => spec_read_data(bytes@, off, compact) == Ok::<DataView, JournalError>(d@)
                    && d.offset == off,
                Err(e) => spec_read_data(bytes@, off, compact) == Err::<DataView, JournalError>(e),
            },
    {
        let _len = bytes.len();
        let o = match ObjectHeader::read_at(bytes, off) {
            Err(e) => {
                return Err(e);
            },
            Ok(o) => o,
        };
        let o = match o.check_type(ObjectType::Data) {
            Err(e) => {
                return Err(e);
            },
            Ok(o) => o,
        };
        let header = match DataObjectHeader::read_at(bytes, off + 16) {
            Err(e) => {
                return Err(e);
            },
            Ok(h) => h,
        };
        let entry_array = if compact {
            match DataObjectCompactPayloadHeader::read_at(bytes, off + 64) {
                Err(e) => {
                    return Err(e);
                },
                Ok(c) => Some(c),
            }
        } else {
            None
        };
        let consumed: u64 = if compact {
            72
        } else {
            64
        };
        let region: u64 = if o.size >= consumed {
            o.size - consumed
        } else {
            0
        };
        if let Err(e) = check_bounds(bytes, off + consumed, region) {
            return Err(e);
        }
        let pstart = (off + consumed) as usize;
        let pend = pstart + region as usize;
        let p = slice_subrange(bytes, pstart, pend);
        if matches!(o.compression, DataCompression::Plain) {
            let e = match crate::filename::find_byte(p, 0, EQUALS) {
                None => {
                    return Err(JournalError::InvalidData);
                },
                Some(e) => e,
            };
            let key = slice_to_vec(slice_subrange(p, 0, e));
            let value = slice_to_vec(slice_subrange(p, e + 1, region as usize));
            Ok(Data { offset: off, header, entry_array, payload: DataPayload::KeyValue { key, value } })
        } else {
            Ok(
                Data {
                    offset: off,
                    header,
                    entry_array,
                    payload: DataPayload::Compressed {
                        compression: o.compression,
                        bytes: slice_to_vec(p),
                    },
                },
            )
        }
    }
}

} // verus!
