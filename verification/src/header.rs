//! The journal file header.
//!
//! A header is at least 208 and at most 272 bytes: a fixed 208-byte
//! prefix behind the 8-byte magic, then version-gated trailing fields
//! whose presence the declared `header_size` controls.

use vstd::prelude::*;
use crate::codec::{
    le_u128_at, le_u32_at, le_u64_at, opt_nonzero_u128, opt_nonzero_u32, opt_nonzero_u64,
    read_opt_u128_at, read_opt_u32_at, read_opt_u64_at, read_u128_at, read_u32_at, read_u64_at,
};
use crate::error::JournalError;
use crate::filename::FilenameInfo;
use crate::tables::HashTable;

verus! {

/// Smallest header any version writes.
pub const MIN_HEADER_SIZE: u64 = 208;

/// Largest header this crate understands.
pub const MAX_HEADER_SIZE: u64 = 272;

/// The file includes `Tag` objects for Forward Secure Sealing.
pub const COMPAT_SEALED: u32 = 0x1;

/// `tail_entry_boot_id` is strictly maintained.
pub const COMPAT_TAIL_ENTRY_BOOT_ID: u32 = 0x2;

/// Sealing happens once per epoch.
pub const COMPAT_SEALED_CONTINUOUS: u32 = 0x4;

/// All compatible flag bits this crate knows; others are ignored.
pub const COMPAT_KNOWN: u32 = 0x7;

/// Some `Data` objects are XZ-compressed.
pub const INCOMPAT_COMPRESSED_XZ: u32 = 0x1;

/// Some `Data` objects are LZ4-compressed.
pub const INCOMPAT_COMPRESSED_LZ4: u32 = 0x2;

/// The hash tables use a keyed hash.
pub const INCOMPAT_KEYED_HASH: u32 = 0x4;

/// Some `Data` objects are Zstd-compressed.
pub const INCOMPAT_COMPRESSED_ZSTD: u32 = 0x8;

/// The file uses the narrow ("compact") on-disk variants.
pub const INCOMPAT_COMPACT: u32 = 0x10;

/// All incompatible flag bits this crate knows; an unknown bit makes the
/// file unreadable.
pub const INCOMPAT_KNOWN: u32 = 0x1f;

/// The read/write state of a journal file.
#[derive(Debug, Clone, Copy, PartialEq, Eq, Structural)]
pub enum State {
    /// Closed for writing.
    Offline,
    /// Open for writing: a reader may tail it.
    Online,
    /// Closed for writing and rotated: sealed history.
    Archived,
}

/// A parsed journal file header.  All offsets are byte offsets from the
/// start of the file; fields that the on-disk format stores as zero when
/// absent are options.  Timestamps are UTC microseconds since the Unix
/// epoch.  Fields from `n_data` on exist only when `header_size` covers
/// them.
#[derive(Debug, Clone, Copy, PartialEq, Eq, Structural)]
pub struct Header {
    /// Flags a reader may ignore; only the known bits are kept.
    pub compatible_flags: u32,
    /// Flags a reader must understand; always within `INCOMPAT_KNOWN`.
    pub incompatible_flags: u32,
    pub state: State,
    /// Unique identifier of this file; nonzero.
    pub file_id: u128,
    /// Identifier of the machine that wrote the file; nonzero.
    pub machine_id: u128,
    /// Boot identifier of the last entry; absent if the journal is empty.
    pub tail_entry_boot_id: Option<u128>,
    /// Identifier of the sequence-number domain; nonzero.
    pub seqnum_id: u128,
    /// Declared size of this header; nonzero.
    pub header_size: u64,
    /// Allocated size of the file after the header; nonzero.
    pub arena_size: u64,
    /// Offset of the data hash table; nonzero (the table always exists).
    pub data_hash_table_offset: u64,
    /// Size in bytes of the data hash table; nonzero.
    pub data_hash_table_size: u64,
    /// Offset of the field hash table; nonzero.
    pub field_hash_table_offset: u64,
    /// Size in bytes of the field hash table; nonzero.
    pub field_hash_table_size: u64,
    /// Offset of the last object; nonzero.
    pub tail_object_offset: u64,
    /// Number of objects in the file; nonzero.
    pub n_objects: u64,
    /// Number of entries in the file.
    pub n_entries: u64,
    /// Sequence number of the last entry; absent if empty.
    pub tail_entry_seqnum: Option<u64>,
    /// Sequence number of the first entry; absent if empty.
    pub head_entry_seqnum: Option<u64>,
    /// Offset of the first entry array; nonzero.
    pub entry_array_offset: u64,
    /// Wallclock time of the first entry; absent if empty.
    pub head_entry_realtime: Option<u64>,
    /// Wallclock time of the last entry; absent if empty.
    pub tail_entry_realtime: Option<u64>,
    /// Monotonic time of the last entry; absent if empty.
    pub tail_entry_monotonic: Option<u64>,
    /// Number of data objects; absent before `header_size` 216.
    pub n_data: Option<u64>,
    /// Number of field objects; absent before `header_size` 224.
    pub n_fields: Option<u64>,
    /// Number of tag objects; absent before `header_size` 232.
    pub n_tags: Option<u64>,
    /// Number of entry arrays; absent before `header_size` 240.
    pub n_entry_arrays: Option<u64>,
    /// Longest data hash chain; absent before `header_size` 248.
    pub data_hash_chain_depth: Option<u64>,
    /// Longest field hash chain; absent before `header_size` 256.
    pub field_hash_chain_depth: Option<u64>,
    /// Offset of the last entry array; absent before `header_size` 260
    /// or when zero.
    pub tail_entry_array_offset: Option<u32>,
    /// Entries in the last entry array; absent before `header_size` 264
    /// or when zero.
    pub tail_entry_array_n_entries: Option<u32>,
    /// Offset of the last entry; absent before `header_size` 272 or when
    /// the journal is empty.
    pub tail_entry_offset: Option<u64>,
}

/// The 8-byte magic `LPKSHHRH` opens every journal file.
pub open spec fn has_magic(s: Seq<u8>) -> bool {
    &&& s.len() >= 8
    &&& s[0] == 0x4c
    &&& s[1] == 0x50
    &&& s[2] == 0x4b
    &&& s[3] == 0x53
    &&& s[4] == 0x48
    &&& s[5] == 0x48
    &&& s[6] == 0x52
    &&& s[7] == 0x48
}

/// How many bytes the header occupies for a declared `header_size`:
/// every version-gated field whose gate the size crosses must be
/// present in full.
pub open spec fn spec_required_len(header_size: u64) -> int {
    if header_size > 264 {
        272
    } else if header_size > 260 {
        264
    } else if header_size > 256 {
        260
    } else if header_size > 248 {
        256
    } else if header_size > 240 {
        248
    } else if header_size > 232 {
        240
    } else if header_size > 224 {
        232
    } else if header_size > 216 {
        224
    } else if header_size > 208 {
        216
    } else {
        208
    }
}

/// The state byte decodes to a [`State`], or nothing.
pub open spec fn spec_state(b: u8) -> Option<State> {
    if b == 0 {
        Some(State::Offline)
    } else if b == 1 {
        Some(State::Online)
    } else if b == 2 {
        Some(State::Archived)
    } else {
        None
    }
}

/// The fixed-prefix fields that the format requires to be nonzero.
pub open spec fn spec_required_nonzero(s: Seq<u8>) -> bool {
    &&& le_u128_at(s, 24) != 0  // file_id
    &&& le_u128_at(s, 40) != 0  // machine_id
    &&& le_u128_at(s, 72) != 0  // seqnum_id
    &&& le_u64_at(s, 88) != 0  // header_size
    &&& le_u64_at(s, 96) != 0  // arena_size
    &&& le_u64_at(s, 104) != 0  // data_hash_table_offset
    &&& le_u64_at(s, 112) != 0  // data_hash_table_size
    &&& le_u64_at(s, 120) != 0  // field_hash_table_offset
    &&& le_u64_at(s, 128) != 0  // field_hash_table_size
    &&& le_u64_at(s, 136) != 0  // tail_object_offset
    &&& le_u64_at(s, 144) != 0  // n_objects
    &&& le_u64_at(s, 176) != 0  // entry_array_offset
}

/// The header the bytes describe, fields gated on the declared size.
pub open spec fn spec_header_value(s: Seq<u8>) -> Header {
    let header_size = le_u64_at(s, 88);
    Header {
        compatible_flags: le_u32_at(s, 8) & COMPAT_KNOWN,
        incompatible_flags: le_u32_at(s, 12),
        state: spec_state(s[16]).unwrap(),
        file_id: le_u128_at(s, 24),
        machine_id: le_u128_at(s, 40),
        tail_entry_boot_id: opt_nonzero_u128(le_u128_at(s, 56)),
        seqnum_id: le_u128_at(s, 72),
        header_size,
        arena_size: le_u64_at(s, 96),
        data_hash_table_offset: le_u64_at(s, 104),
        data_hash_table_size: le_u64_at(s, 112),
        field_hash_table_offset: le_u64_at(s, 120),
        field_hash_table_size: le_u64_at(s, 128),
        tail_object_offset: le_u64_at(s, 136),
        n_objects: le_u64_at(s, 144),
        n_entries: le_u64_at(s, 152),
        tail_entry_seqnum: opt_nonzero_u64(le_u64_at(s, 160)),
        head_entry_seqnum: opt_nonzero_u64(le_u64_at(s, 168)),
        entry_array_offset: le_u64_at(s, 176),
        head_entry_realtime: opt_nonzero_u64(le_u64_at(s, 184)),
        tail_entry_realtime: opt_nonzero_u64(le_u64_at(s, 192)),
        tail_entry_monotonic: opt_nonzero_u64(le_u64_at(s, 200)),
        n_data: if header_size > 208 {
            Some(le_u64_at(s, 208))
        } else {
            None
        },
        n_fields: if header_size > 216 {
            Some(le_u64_at(s, 216))
        } else {
            None
        },
        n_tags: if header_size > 224 {
            Some(le_u64_at(s, 224))
        } else {
            None
        },
        n_entry_arrays: if header_size > 232 {
            Some(le_u64_at(s, 232))
        } else {
            None
        },
        data_hash_chain_depth: if header_size > 240 {
            Some(le_u64_at(s, 240))
        } else {
            None
        },
        field_hash_chain_depth: if header_size > 248 {
            Some(le_u64_at(s, 248))
        } else {
            None
        },
        tail_entry_array_offset: if header_size > 256 {
            opt_nonzero_u32(le_u32_at(s, 256))
        } else {
            None
        },
        tail_entry_array_n_entries: if header_size > 260 {
            opt_nonzero_u32(le_u32_at(s, 260))
        } else {
            None
        },
        tail_entry_offset: if header_size > 264 {
            opt_nonzero_u64(le_u64_at(s, 264))
        } else {
            None
        },
    }
}

/// What header parsing yields for any byte string: the header, or the
/// first reason the bytes are not a journal header.
pub open spec fn spec_parse_header(s: Seq<u8>) -> Result<Header, JournalError> {
    if s.len() < 208 {
        Err(JournalError::UnexpectedEof)
    } else if !has_magic(s) {
        Err(JournalError::InvalidData)
    } else if le_u32_at(s, 12) & !INCOMPAT_KNOWN != 0 {
        Err(JournalError::InvalidData)
    } else if spec_state(s[16]) is None {
        Err(JournalError::InvalidData)
    } else if !spec_required_nonzero(s) {
        Err(JournalError::InvalidData)
    } else if s.len() < spec_required_len(le_u64_at(s, 88)) {
        Err(JournalError::UnexpectedEof)
    } else {
        Ok(spec_header_value(s))
    }
}

impl Header {
    /// What a successful parse guarantees of every header.
    pub open spec fn wf(self) -> bool {
        &&& self.compatible_flags & !COMPAT_KNOWN == 0
        &&& self.incompatible_flags & !INCOMPAT_KNOWN == 0
        &&& self.file_id != 0
        &&& self.machine_id != 0
        &&& self.seqnum_id != 0
        &&& self.header_size != 0
        &&& self.arena_size != 0
        &&& self.data_hash_table_offset != 0
        &&& self.data_hash_table_size != 0
        &&& self.field_hash_table_offset != 0
        &&& self.field_hash_table_size != 0
        &&& self.tail_object_offset != 0
        &&& self.n_objects != 0
        &&& self.entry_array_offset != 0
    }

    /// Parse a journal file header out of the opening bytes of a file.
    ///
    /// Rejects a missing magic, an unknown incompatible flag, an unknown
    /// state and a zero in any required field with `InvalidData`, and a
    /// buffer shorter than the declared structure with `UnexpectedEof`.
    pub fn read(bytes: &[u8]) -> (r: Result<Header, JournalError>)
        ensures
            r == spec_parse_header(bytes@),
            r matches Ok(h) ==> h.wf(),
    {
        let n = bytes.len();
        if n < 208 {
            return Err(JournalError::UnexpectedEof);
        }
        if !(bytes[0] == 0x4c && bytes[1] == 0x50 && bytes[2] == 0x4b && bytes[3] == 0x53
            && bytes[4] == 0x48 && bytes[5] == 0x48 && bytes[6] == 0x52 && bytes[7] == 0x48) {
            return Err(JournalError::InvalidData);
        }
        let raw_compatible = read_u32_at(bytes, 8);
        let compatible_flags = raw_compatible & COMPAT_KNOWN;
        let incompatible_flags = read_u32_at(bytes, 12);
        if incompatible_flags & !INCOMPAT_KNOWN != 0 {
            return Err(JournalError::InvalidData);
        }
        let state = match bytes[16] {
            0 => State::Offline,
            1 => State::Online,
            2 => State::Archived,
            _ => {
                return Err(JournalError::InvalidData);
            },
        };
        let file_id = read_u128_at(bytes, 24);
        let machine_id = read_u128_at(bytes, 40);
        let tail_entry_boot_id = read_opt_u128_at(bytes, 56);
        let seqnum_id = read_u128_at(bytes, 72);
        let header_size = read_u64_at(bytes, 88);
        let arena_size = read_u64_at(bytes, 96);
        let data_hash_table_offset = read_u64_at(bytes, 104);
        let data_hash_table_size = read_u64_at(bytes, 112);
        let field_hash_table_offset = read_u64_at(bytes, 120);
        let field_hash_table_size = read_u64_at(bytes, 128);
        let tail_object_offset = read_u64_at(bytes, 136);
        let n_objects = read_u64_at(bytes, 144);
        let n_entries = read_u64_at(bytes, 152);
        let tail_entry_seqnum = read_opt_u64_at(bytes, 160);
        let head_entry_seqnum = read_opt_u64_at(bytes, 168);
        let entry_array_offset = read_u64_at(bytes, 176);
        let head_entry_realtime = read_opt_u64_at(bytes, 184);
        let tail_entry_realtime = read_opt_u64_at(bytes, 192);
        let tail_entry_monotonic = read_opt_u64_at(bytes, 200);
        if file_id == 0 || machine_id == 0 || seqnum_id == 0 || header_size == 0 || arena_size == 0
            || data_hash_table_offset == 0 || data_hash_table_size == 0
            || field_hash_table_offset == 0 || field_hash_table_size == 0
            || tail_object_offset == 0 || n_objects == 0 || entry_array_offset == 0 {
            return Err(JournalError::InvalidData);
        }
        let need: u64 = if header_size > 264 {
            272
        } else if header_size > 260 {
            264
        } else if header_size > 256 {
            260
        } else if header_size > 248 {
            256
        } else if header_size > 240 {
            248
        } else if header_size > 232 {
            240
        } else if header_size > 224 {
            232
        } else if header_size > 216 {
            224
        } else if header_size > 208 {
            216
        } else {
            208
        };
        if (n as u64) < need {
            return Err(JournalError::UnexpectedEof);
        }
        let n_data = if header_size > 208 {
            Some(read_u64_at(bytes, 208))
        } else {
            None
        };
        let n_fields = if header_size > 216 {
            Some(read_u64_at(bytes, 216))
        } else {
            None
        };
        let n_tags = if header_size > 224 {
            Some(read_u64_at(bytes, 224))
        } else {
            None
        };
        let n_entry_arrays = if header_size > 232 {
            Some(read_u64_at(bytes, 232))
        } else {
            None
        };
        let data_hash_chain_depth = if header_size > 240 {
            Some(read_u64_at(bytes, 240))
        } else {
            None
        };
        let field_hash_chain_depth = if header_size > 248 {
            Some(read_u64_at(bytes, 248))
        } else {
            None
        };
        let tail_entry_array_offset = if header_size > 256 {
            read_opt_u32_at(bytes, 256)
        } else {
            None
        };
        let tail_entry_array_n_entries = if header_size > 260 {
            read_opt_u32_at(bytes, 260)
        } else {
            None
        };
        let tail_entry_offset = if header_size > 264 {
            read_opt_u64_at(bytes, 264)
        } else {
            None
        };
        let h = Header {
            compatible_flags,
            incompatible_flags,
            state,
            file_id,
            machine_id,
            tail_entry_boot_id,
            seqnum_id,
            header_size,
            arena_size,
            data_hash_table_offset,
            data_hash_table_size,
            field_hash_table_offset,
            field_hash_table_size,
            tail_object_offset,
            n_objects,
            n_entries,
            tail_entry_seqnum,
            head_entry_seqnum,
            entry_array_offset,
            head_entry_realtime,
            tail_entry_realtime,
            tail_entry_monotonic,
            n_data,
            n_fields,
            n_tags,
            n_entry_arrays,
            data_hash_chain_depth,
            field_hash_chain_depth,
            tail_entry_array_offset,
            tail_entry_array_n_entries,
            tail_entry_offset,
        };
        proof {
            assert(h == spec_header_value(bytes@));
            assert((compatible_flags & !0x7u32) == 0) by (bit_vector)
                requires
                    compatible_flags == raw_compatible & 0x7u32,
            ;
        }
        Ok(h)
    }

    /// Whether the file uses the narrow on-disk variants.
    pub open spec fn spec_is_compact(self) -> bool {
        self.incompatible_flags & INCOMPAT_COMPACT != 0
    }

    /// Whether the file uses the narrow on-disk variants.
    pub fn is_compact(&self) -> (r: bool)
        ensures
            r == self.spec_is_compact(),
    {
        self.incompatible_flags & INCOMPAT_COMPACT != 0
    }

    /// Byte stride of one entry-array item: 4 compact, 8 regular.
    pub open spec fn spec_sizeof_entry_array_item(self) -> u64 {
        if self.spec_is_compact() {
            4
        } else {
            8
        }
    }

    /// Byte stride of one entry-array item: 4 compact, 8 regular.
    pub fn sizeof_entry_array_item(&self) -> (r: u64)
        ensures
            r == self.spec_sizeof_entry_array_item(),
    {
        if self.is_compact() {
            4
        } else {
            8
        }
    }

    /// Byte stride of one entry-object item: 4 compact, 16 regular
    /// (offset plus hash).
    pub open spec fn spec_sizeof_entry_object_item(self) -> u64 {
        if self.spec_is_compact() {
            4
        } else {
            16
        }
    }

    /// Byte stride of one entry-object item: 4 compact, 16 regular.
    pub fn sizeof_entry_object_item(&self) -> (r: u64)
        ensures
            r == self.spec_sizeof_entry_object_item(),
    {
        if self.is_compact() {
            4
        } else {
            16
        }
    }

    /// Where the data hash table lies.
    pub fn data_hash_table(&self) -> (t: HashTable)
        ensures
            t.offset == self.data_hash_table_offset,
            t.size == self.data_hash_table_size,
    {
        HashTable { offset: self.data_hash_table_offset, size: self.data_hash_table_size }
    }

    /// Where the field hash table lies.
    pub fn field_hash_table(&self) -> (t: HashTable)
        ensures
            t.offset == self.field_hash_table_offset,
            t.size == self.field_hash_table_size,
    {
        HashTable { offset: self.field_hash_table_offset, size: self.field_hash_table_size }
    }

    /// The filename information a header implies: archived when the
    /// journal has entries (its name then embeds head sequence number
    /// and head time), the live name otherwise.  The scope is not stored
    /// in the file and comes back empty.
    pub fn filename_info(&self) -> (r: FilenameInfo)
        ensures
            match (self.head_entry_seqnum, self.head_entry_realtime) {
                (Some(hs), Some(hr)) => r@ == (crate::filename::FilenameInfoView::Archived {
                    machine_id: self.machine_id,
                    scope: Seq::<u8>::empty(),
                    file_seqnum: self.seqnum_id,
                    head_seqnum: hs,
                    head_realtime: hr,
                }),
                _ => r@ == (crate::filename::FilenameInfoView::Latest {
                    machine_id: self.machine_id,
                    scope: Seq::<u8>::empty(),
                }),
            },
    {
        let scope: Vec<u8> = Vec::new();
        proof {
            assert(scope@ =~= Seq::<u8>::empty());
        }
        match (self.head_entry_seqnum, self.head_entry_realtime) {
            (Some(hs), Some(hr)) => FilenameInfo::Archived {
                machine_id: self.machine_id,
                scope,
                file_seqnum: self.seqnum_id,
                head_seqnum: hs,
                head_realtime: hr,
            },
            _ => FilenameInfo::Latest { machine_id: self.machine_id, scope },
        }
    }
}

/// For any long-enough byte string that does not begin with the magic,
/// header parsing reports invalid data.
pub proof fn lemma_magic_gate(s: Seq<u8>)
    requires
        s.len() >= 208,
        !has_magic(s),
    ensures
        spec_parse_header(s) == Err::<Header, JournalError>(JournalError::InvalidData),
{
}

/// An unknown incompatible flag bit makes the file unreadable; with only
/// known bits set, the flags refuse nothing (parsing then turns on the
/// rest of the header alone).  Unknown compatible bits never refuse: they
/// are masked off.
pub proof fn lemma_flag_gate(s: Seq<u8>)
    requires
        s.len() >= 208,
        has_magic(s),
    ensures
        le_u32_at(s, 12) & !INCOMPAT_KNOWN != 0 ==> spec_parse_header(s) == Err::<
            Header,
            JournalError,
        >(JournalError::InvalidData),
        le_u32_at(s, 12) & !INCOMPAT_KNOWN == 0 && spec_state(s[16]) is Some
            && spec_required_nonzero(s) && s.len() >= spec_required_len(le_u64_at(s, 88))
            ==> spec_parse_header(s) == Ok::<Header, JournalError>(spec_header_value(s)),
{
}

/// Version gating: parsing a valid header keeps exactly the fields its
/// declared `header_size` covers; everything beyond is absent.
pub proof fn lemma_version_gate(s: Seq<u8>, h: Header)
    requires
        spec_parse_header(s) == Ok::<Header, JournalError>(h),
    ensures
        h.header_size == le_u64_at(s, 88),
        h.n_data is Some <==> h.header_size > 208,
        h.n_fields is Some <==> h.header_size > 216,
        h.n_tags is Some <==> h.header_size > 224,
        h.n_entry_arrays is Some <==> h.header_size > 232,
        h.data_hash_chain_depth is Some <==> h.header_size > 240,
        h.field_hash_chain_depth is Some <==> h.header_size > 248,
        h.header_size <= 256 ==> h.tail_entry_array_offset is None,
        h.header_size <= 260 ==> h.tail_entry_array_n_entries is None,
        h.header_size <= 264 ==> h.tail_entry_offset is None,
{
}

} // verus!
