//! Little-endian fixed-width integer fields, read out of a byte buffer.
//!
//! Every multi-byte integer in a journal file is little-endian.  Offset
//! fields use zero as a sentinel for "absent", decoded here into an
//! `Option`.

use vstd::prelude::*;
use vstd::bytes::{
    spec_u32_from_le_bytes, spec_u64_from_le_bytes, spec_u128_from_le_bytes, u128_from_le_bytes,
    u32_from_le_bytes, u64_from_le_bytes,
};
use vstd::slice::slice_subrange;

verus! {

/// The `u32` stored little-endian at byte offset `off` of `s`.
pub open spec fn le_u32_at(s: Seq<u8>, off: int) -> u32 {
    spec_u32_from_le_bytes(s.subrange(off, off + 4))
}

/// The `u64` stored little-endian at byte offset `off` of `s`.
pub open spec fn le_u64_at(s: Seq<u8>, off: int) -> u64 {
    spec_u64_from_le_bytes(s.subrange(off, off + 8))
}

/// The `u128` stored little-endian at byte offset `off` of `s`.
pub open spec fn le_u128_at(s: Seq<u8>, off: int) -> u128 {
    spec_u128_from_le_bytes(s.subrange(off, off + 16))
}

/// Zero decodes to "absent"; any other value is present.
pub open spec fn opt_nonzero_u32(v: u32) -> Option<u32> {
    if v == 0 {
        None
    } else {
        Some(v)
    }
}

/// Zero decodes to "absent"; any other value is present.
pub open spec fn opt_nonzero_u64(v: u64) -> Option<u64> {
    if v == 0 {
        None
    } else {
        Some(v)
    }
}

/// Zero decodes to "absent"; any other value is present.
pub open spec fn opt_nonzero_u128(v: u128) -> Option<u128> {
    if v == 0 {
        None
    } else {
        Some(v)
    }
}

/// Read the little-endian `u32` at `off`.
pub fn read_u32_at(bytes: &[u8], off: usize) -> (r: u32)
    requires
        off + 4 <= bytes@.len(),
    ensures
        r == le_u32_at(bytes@, off as int),
{
    let _len = bytes.len();
    u32_from_le_bytes(slice_subrange(bytes, off, off + 4))
}

/// Read the little-endian `u64` at `off`.
pub fn read_u64_at(bytes: &[u8], off: usize) -> (r: u64)
    requires
        off + 8 <= bytes@.len(),
    ensures
        r == le_u64_at(bytes@, off as int),
{
    let _len = bytes.len();
    u64_from_le_bytes(slice_subrange(bytes, off, off + 8))
}

/// Read the little-endian `u128` at `off`.
pub fn read_u128_at(bytes: &[u8], off: usize) -> (r: u128)
    requires
        off + 16 <= bytes@.len(),
    ensures
        r == le_u128_at(bytes@, off as int),
{
    let _len = bytes.len();
    u128_from_le_bytes(slice_subrange(bytes, off, off + 16))
}

/// Read the little-endian `u32` at `off`, decoding zero as absent.
pub fn read_opt_u32_at(bytes: &[u8], off: usize) -> (r: Option<u32>)
    requires
        off + 4 <= bytes@.len(),
    ensures
        r == opt_nonzero_u32(le_u32_at(bytes@, off as int)),
{
    let v = read_u32_at(bytes, off);
    if v == 0 {
        None
    } else {
        Some(v)
    }
}

/// Read the little-endian `u64` at `off`, decoding zero as absent.
pub fn read_opt_u64_at(bytes: &[u8], off: usize) -> (r: Option<u64>)
    requires
        off + 8 <= bytes@.len(),
    ensures
        r == opt_nonzero_u64(le_u64_at(bytes@, off as int)),
{
    let v = read_u64_at(bytes, off);
    if v == 0 {
        None
    } else {
        Some(v)
    }
}

/// Read the little-endian `u128` at `off`, decoding zero as absent.
pub fn read_opt_u128_at(bytes: &[u8], off: usize) -> (r: Option<u128>)
    requires
        off + 16 <= bytes@.len(),
    ensures
        r == opt_nonzero_u128(le_u128_at(bytes@, off as int)),
{
    let v = read_u128_at(bytes, off);
    if v == 0 {
        None
    } else {
        Some(v)
    }
}

} // verus!
