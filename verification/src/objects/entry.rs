//! Entry objects: one log record each.
//!
//! The sub-header carries the sequence number, timestamps, boot
//! identifier and a hash; an array of items follows, each naming the
//! `Data` object of one field.  In compact mode an item is a 32-bit
//! offset; otherwise it is a 64-bit offset (which must still fit 32
//! bits) plus a 64-bit hash.  A zero item ends the used part.

use vstd::prelude::*;
use crate::codec::{le_u128_at, le_u32_at, le_u64_at, read_u128_at, read_u32_at, read_u64_at};
use crate::error::JournalError;
use crate::monotonic::Monotonic;
use crate::objects::{
    check_bounds, spec_bounds, spec_read_object_header, ObjectHeader, ObjectType,
};

verus! {

/// Size in bytes of the entry sub-header.
pub const ENTRY_OBJECT_HEADER_SIZE: u64 = 48;

/// The sub-header of an entry object.
#[derive(Debug, Clone, Copy, PartialEq, Eq, Structural)]
pub struct EntryObjectHeader {
    /// Sequence number of the entry; nonzero.
    pub seqnum: u64,
    /// Wallclock time, UTC microseconds since the Unix epoch.
    pub realtime: u64,
    /// Monotonic time since boot; nonzero.
    pub monotonic: Monotonic,
    /// Boot the entry was written under; nonzero.
    pub boot_id: u128,
    /// XOR hash over the entry's data objects.
    pub xor_hash: u64,
}

/// One item of a compact entry object.
#[derive(Debug, Clone, Copy, PartialEq, Eq, Structural)]
pub struct EntryObjectCompactItem {
    pub object_offset: u32,
}

/// One item of a regular entry object.
#[derive(Debug, Clone, Copy, PartialEq, Eq, Structural)]
pub struct EntryObjectRegularItem {
    pub object_offset: u64,
    pub hash: u64,
}

/// One log entry: where it lies, its sub-header, and the offsets of its
/// data objects (all nonzero).
#[derive(Debug, Clone, PartialEq, Eq)]
pub struct Entry {
    /// Offset of the entry object in its file; nonzero.
    pub offset: u64,
    pub header: EntryObjectHeader,
    /// Offsets of the entry's data objects, in item order.
    pub objects: Vec<u32>,
}

/// Mathematical model of an [`Entry`].
pub struct EntryView {
    pub offset: u64,
    pub header: EntryObjectHeader,
    pub objects: Seq<u32>,
}

impl View for Entry {
    type V = EntryView;

    open spec fn view(&self) -> EntryView {
        EntryView { offset: self.offset, header: self.header, objects: self.objects@ }
    }
}

/// The entry sub-header stored at `off`: invalid if the sequence number,
/// monotonic time or boot identifier is zero.
pub open spec fn spec_read_entry_header(s: Seq<u8>, off: u64) -> Result<
    EntryObjectHeader,
    JournalError,
> {
    match spec_bounds(s, off, 48) {
        Err(e) => Err(e),
        Ok(_) => {
            let seqnum = le_u64_at(s, off as int);
            let realtime = le_u64_at(s, off + 8);
            let monotonic = le_u64_at(s, off + 16);
            let boot_id = le_u128_at(s, off + 24);
            let xor_hash = le_u64_at(s, off + 40);
            if seqnum == 0 || monotonic == 0 || boot_id == 0 {
                Err(JournalError::InvalidData)
            } else {
                Ok(
                    EntryObjectHeader {
                        seqnum,
                        realtime,
                        monotonic: Monotonic(monotonic),
                        boot_id,
                        xor_hash,
                    },
                )
            }
        },
    }
}

impl EntryObjectHeader {
    /// Read the entry sub-header at byte offset `off`.
    pub fn read_at(bytes: &[u8], off: u64) -> (r: Result<EntryObjectHeader, JournalError>)
        ensures
            r == spec_read_entry_header(bytes@, off),
    {
        match check_bounds(bytes, off, 48) {
            Err(e) => Err(e),
            Ok(_) => {
                let seqnum = read_u64_at(bytes, off as usize);
                let realtime = read_u64_at(bytes, (off + 8) as usize);
                let monotonic = read_u64_at(bytes, (off + 16) as usize);
                let boot_id = read_u128_at(bytes, (off + 24) as usize);
                let xor_hash = read_u64_at(bytes, (off + 40) as usize);
                if seqnum == 0 || monotonic == 0 || boot_id == 0 {
                    Err(JournalError::InvalidData)
                } else {
                    Ok(
                        EntryObjectHeader {
                            seqnum,
                            realtime,
                            monotonic: Monotonic(monotonic),
                            boot_id,
                            xor_hash,
                        },
                    )
                }
            },
        }
    }
}

impl EntryObjectCompactItem {
    /// Read a compact entry item at byte offset `off`.
    pub fn read_at(bytes: &[u8], off: u64) -> (r: Result<EntryObjectCompactItem, JournalError>)
        ensures
            match r {
                Ok(item) => spec_bounds(bytes@, off, 4) is Ok && item.object_offset == le_u32_at(
                    bytes@,
                    off as int,
                ),
                Err(e) => spec_bounds(bytes@, off, 4) == Err::<(), JournalError>(e),
            },
    {
        match check_bounds(bytes, off, 4) {
            Err(e) => Err(e),
            Ok(_) => Ok(EntryObjectCompactItem { object_offset: read_u32_at(bytes, off as usize) }),
        }
    }
}

impl EntryObjectRegularItem {
    /// Read a regular entry item (offset plus hash) at byte offset
    /// `off`.
    pub fn read_at(bytes: &[u8], off: u64) -> (r: Result<EntryObjectRegularItem, JournalError>)
        ensures
            match r {
                Ok(item) => spec_bounds(bytes@, off, 16) is Ok && item.object_offset == le_u64_at(
                    bytes@,
                    off as int,
                ) && item.hash == le_u64_at(bytes@, off + 8),
                Err(e) => spec_bounds(bytes@, off, 16) == Err::<(), JournalError>(e),
            },
    {
        match check_bounds(bytes, off, 16) {
            Err(e) => Err(e),
            Ok(_) => Ok(
                EntryObjectRegularItem {
                    object_offset: read_u64_at(bytes, off as usize),
                    hash: read_u64_at(bytes, (off + 8) as usize),
                },
            ),
        }
    }
}

/// The data-object offset one entry item at `off` names: 32 bits wide in
/// compact mode; regular items store 64 bits which must fit 32, else the
/// item is invalid.
pub open spec fn spec_read_entry_item(s: Seq<u8>, off: u64, compact: bool) -> Result<
    u32,
    JournalError,
> {
    if compact {
        match spec_bounds(s, off, 4) {
            Err(e) => Err(e),
            Ok(_) => Ok(le_u32_at(s, off as int)),
        }
    } else {
        match spec_bounds(s, off, 16) {
            Err(e) => Err(e),
            Ok(_) => {
                let v = le_u64_at(s, off as int);
                if v > u32::MAX as u64 {
                    Err(JournalError::InvalidData)
                } else {
                    Ok(v as u32)
                }
            },
        }
    }
}

/// Read the data-object offset of the entry item at `off`.
pub fn read_entry_item(bytes: &[u8], off: u64, compact: bool) -> (r: Result<u32, JournalError>)
    ensures
        r == spec_read_entry_item(bytes@, off, compact),
{
    if compact {
        match check_bounds(bytes, off, 4) {
            Err(e) => Err(e),
            Ok(_) => Ok(read_u32_at(bytes, off as usize)),
        }
    } else {
        match check_bounds(bytes, off, 16) {
            Err(e) => Err(e),
            Ok(_) => {
                let v = read_u64_at(bytes, off as usize);
                if v > u32::MAX as u64 {
                    Err(JournalError::InvalidData)
                } else {
                    Ok(v as u32)
                }
            },
        }
    }
}

/// The first `count` items of the entry at `base`, stopping early at the
/// first zero item.
pub open spec fn spec_entry_items(s: Seq<u8>, base: u64, count: u64, stride: u64, compact: bool) -> Result<
    Seq<u32>,
    JournalError,
>
    decreases count,
{
    if count == 0 {
        Ok(Seq::empty())
    } else {
        match spec_read_entry_item(s, base, compact) {
            Err(e) => Err(e),
            Ok(v) => {
                if v == 0 {
                    Ok(Seq::empty())
                } else if base + stride > u64::MAX {
                    Err(JournalError::UnexpectedEof)
                } else {
                    match spec_entry_items(s, (base + stride) as u64, (count - 1) as u64, stride, compact) {
                        Err(e) => Err(e),
                        Ok(rest) => Ok(seq![v] + rest),
                    }
                }
            },
        }
    }
}

/// Read up to `count` items of stride `stride` starting at `base`,
/// stopping at the first zero item.
fn read_entry_items(bytes: &[u8], base: u64, count: u64, compact: bool) -> (r: Result<
    Vec<u32>,
    JournalError,
>)
    requires
        compact ==> spec_stride(compact) == 4,
    ensures
        match r {
            Ok(v) => spec_entry_items(bytes@, base, count, spec_stride(compact), compact) == Ok::<
                Seq<u32>,
                JournalError,
            >(v@) && (forall|k: int| 0 <= k < v@.len() ==> v@[k] != 0) && v@.len() <= count,
            Err(e) => spec_entry_items(bytes@, base, count, spec_stride(compact), compact) == Err::<
                Seq<u32>,
                JournalError,
            >(e),
        },
{
    let stride: u64 = if compact {
        4
    } else {
        16
    };
    let mut out: Vec<u32> = Vec::new();
    let mut n: u64 = 0;
    let mut off: u64 = base;
    while n < count
        invariant
            n <= count,
            stride == spec_stride(compact),
            off == base + n * stride,
            base + n * stride <= u64::MAX,
            out@.len() == n,
            forall|k: int| 0 <= k < out@.len() ==> out@[k] != 0,
            spec_entry_items(bytes@, base, count, stride, compact) == spec_items_join(
                out@,
                spec_entry_items(bytes@, off, (count - n) as u64, stride, compact),
            ),
        decreases count - n,
    {
        let ghost items_here = spec_entry_items(bytes@, off, (count - n) as u64, stride, compact);
        let v = match read_entry_item(bytes, off, compact) {
            Err(e) => {
                return Err(e);
            },
            Ok(v) => v,
        };
        if v == 0 {
            proof {
                assert(out@ + Seq::<u32>::empty() =~= out@);
            }
            return Ok(out);
        }
        if off > u64::MAX - stride {
            return Err(JournalError::UnexpectedEof);
        }
        let ghost old_off = off;
        let ghost prev = out@;
        out.push(v);
        off = off + stride;
        n = n + 1;
        proof {
            assert(n * stride == (n - 1) * stride + stride) by (nonlinear_arith);
            let rest = spec_entry_items(bytes@, off, (count - n) as u64, stride, compact);
            assert(off == old_off + stride);
            assert(items_here == (match rest {
                Ok(r) => Ok::<Seq<u32>, JournalError>(seq![v] + r),
                Err(e) => Err::<Seq<u32>, JournalError>(e),
            }));
            assert(spec_items_join(prev, items_here) == spec_items_join(out@, rest)) by {
                match rest {
                    Ok(r) => {
                        assert(prev + (seq![v] + r) =~= out@ + r);
                    },
                    Err(_) => {},
                }
            }
        }
    }
    proof {
        assert(out@ + Seq::<u32>::empty() =~= out@);
    }
    Ok(out)
}

/// Prepend already-read items to the outcome of reading the rest.
pub open spec fn spec_items_join(done: Seq<u32>, rest: Result<Seq<u32>, JournalError>) -> Result<
    Seq<u32>,
    JournalError,
> {
    match rest {
        Ok(r) => Ok(done + r),
        Err(e) => Err(e),
    }
}

/// Byte stride of one entry item.
pub open spec fn spec_stride(compact: bool) -> u64 {
    if compact {
        4
    } else {
        16
    }
}

/// How many items the entry object at `off` has room for.
pub open spec fn spec_entry_capacity(o: ObjectHeader, compact: bool) -> u64 {
    if o.spec_payload_size() >= 48 {
        ((o.spec_payload_size() - 48) as u64 / spec_stride(compact)) as u64
    } else {
        0
    }
}

/// The entry stored at `off` of a file in the given mode: generic
/// header (must be of type `Entry`), sub-header, then the items up to
/// the first zero.
pub open spec fn spec_read_entry(s: Seq<u8>, off: u64, compact: bool) -> Result<
    EntryView,
    JournalError,
> {
    match spec_read_object_header(s, off) {
        Err(e) => Err(e),
        Ok(o) => {
            if o.object_type != ObjectType::Entry {
                Err(JournalError::InvalidData)
            } else {
                match spec_read_entry_header(s, (off + 16) as u64) {
                    Err(e) => Err(e),
                    Ok(header) => {
                        match spec_entry_items(
                            s,
                            (off + 64) as u64,
                            spec_entry_capacity(o, compact),
                            spec_stride(compact),
                            compact,
                        ) {
                            Err(e) => Err(e),
                            Ok(objects) => Ok(EntryView { offset: off, header, objects }),
                        }
                    },
                }
            }
        },
    }
}

impl Entry {
    /// Read the entry object at byte offset `off`.
    pub fn read_at(bytes: &[u8], off: u64, file_header: &crate::header::Header) -> (r: Result<
        Entry,
        JournalError,
    >)
        ensures
            match r {
                Ok(e) => spec_read_entry(bytes@, off, file_header.spec_is_compact()) == Ok::<
                    EntryView,
                    JournalError,
                >(e@) && e.offset == off && (forall|k: int|
                    0 <= k < e.objects@.len() ==> e.objects@[k] != 0),
                Err(e) => spec_read_entry(bytes@, off, file_header.spec_is_compact()) == Err::<
                    EntryView,
                    JournalError,
                >(e),
            },
    {
        let _len = bytes.len();
        let compact = file_header.is_compact();
        let o = match ObjectHeader::read_at(bytes, off) {
            Err(e) => {
                return Err(e);
            },
            Ok(o) => o,
        };
        let o = match o.check_type(ObjectType::Entry) {
            Err(e) => {
                return Err(e);
            },
            Ok(o) => o,
        };
        let header = match EntryObjectHeader::read_at(bytes, off + 16) {
            Err(e) => {
                return Err(e);
            },
            Ok(h) => h,
        };
        let payload = o.payload_size();
        let capacity: u64 = if payload >= ENTRY_OBJECT_HEADER_SIZE {
            (payload - ENTRY_OBJECT_HEADER_SIZE) / (if compact {
                4
            } else {
                16
            })
        } else {
            0
        };
        let objects = match read_entry_items(bytes, off + 64, capacity, compact) {
            Err(e) => {
                return Err(e);
            },
            Ok(v) => v,
        };
        Ok(Entry { offset: off, header, objects })
    }
}

} // verus!
