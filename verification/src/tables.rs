//! The data and field hash tables: arrays of 16-byte bucket heads.
//!
//! A bucket holds the offsets of the first and last object of its hash
//! chain; the key is the hash modulo the table capacity.  A journal file
//! always has both tables, even when they are empty.

use vstd::prelude::*;
use crate::codec::{le_u64_at, opt_nonzero_u64, read_opt_u64_at};
use crate::error::JournalError;

verus! {

/// Size in bytes of one hash table item.
pub const HASH_ITEM_SIZE: u64 = 16;

/// One hash table bucket: head and tail of its collision chain, absent
/// when the bucket is empty.
#[derive(Debug, Clone, Copy, PartialEq, Eq, Structural)]
pub struct HashItem {
    pub head_hash_offset: Option<u64>,
    pub tail_hash_offset: Option<u64>,
}

/// Where a hash table lies in the file: the header names offset and
/// byte size, both nonzero.
#[derive(Debug, Clone, Copy, PartialEq, Eq, Structural)]
pub struct HashTable {
    pub offset: u64,
    pub size: u64,
}

/// The bucket stored at byte offset `off`.
pub open spec fn spec_hash_item_at(s: Seq<u8>, off: int) -> HashItem {
    HashItem {
        head_hash_offset: opt_nonzero_u64(le_u64_at(s, off)),
        tail_hash_offset: opt_nonzero_u64(le_u64_at(s, off + 8)),
    }
}

impl HashTable {
    /// Number of item slots in the hash table.
    pub fn capacity(&self) -> (r: u64)
        ensures
            r == self.size / 16,
    {
        self.size / HASH_ITEM_SIZE
    }

    /// All buckets of the table, read from the file bytes; fails when
    /// the table region lies beyond the end of the file.
    pub fn items(&self, bytes: &[u8]) -> (r: Result<Vec<HashItem>, JournalError>)
        ensures
            match r {
                Ok(v) => {
                    &&& self.offset + self.size <= bytes@.len()
                    &&& v@.len() == self.size / 16
                    &&& forall|k: int|
                        0 <= k < v@.len() ==> v@[k] == spec_hash_item_at(
                            bytes@,
                            self.offset + 16 * k,
                        )
                },
                Err(e) => e == JournalError::UnexpectedEof && self.offset + self.size
                    > bytes@.len(),
            },
    {
        let len = bytes.len();
        if self.offset > len as u64 || self.size > len as u64 - self.offset {
            return Err(JournalError::UnexpectedEof);
        }
        let capacity = self.size / HASH_ITEM_SIZE;
        let mut out: Vec<HashItem> = Vec::new();
        let mut k: u64 = 0;
        while k < capacity
            invariant
                k <= capacity,
                capacity == self.size / 16,
                self.offset + self.size <= len,
                len == bytes@.len() <= usize::MAX,
                out@.len() == k,
                forall|j: int|
                    0 <= j < k ==> out@[j] == spec_hash_item_at(bytes@, self.offset + 16 * j),
            decreases capacity - k,
        {
            proof {
                assert(16 * (self.size / 16) <= self.size) by (nonlinear_arith);
                assert(16 * (k + 1) <= 16 * (self.size / 16)) by (nonlinear_arith)
                    requires
                        k + 1 <= self.size / 16,
                ;
            }
            let off = self.offset + k * 16;
            let head_hash_offset = read_opt_u64_at(bytes, off as usize);
            let tail_hash_offset = read_opt_u64_at(bytes, (off + 8) as usize);
            out.push(HashItem { head_hash_offset, tail_hash_offset });
            k += 1;
        }
        Ok(out)
    }

    /// Number of buckets, counted by walking the whole table.
    pub fn count(&self, bytes: &[u8]) -> (r: Result<u64, JournalError>)
        ensures
            match r {
                Ok(n) => n == self.size / 16 && self.offset + self.size <= bytes@.len(),
                Err(e) => e == JournalError::UnexpectedEof && self.offset + self.size
                    > bytes@.len(),
            },
    {
        match self.items(bytes) {
            Ok(v) => Ok(v.len() as u64),
            Err(e) => Err(e),
        }
    }
}

} // verus!
