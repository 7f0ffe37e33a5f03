//! Tag objects: Forward Secure Sealing tags.  Reading them is
//! supported; verifying them is not.

use vstd::prelude::*;
use vstd::slice::{slice_subrange, slice_to_vec};
use crate::codec::{le_u64_at, read_u64_at};
use crate::error::JournalError;
use crate::objects::{check_bounds, spec_bounds};

verus! {

/// Size in bytes of a sealing tag's digest.
pub const TAG_LENGTH: u64 = 32;

/// The sub-header of a tag object: which entries the seal covers and the
/// 256-bit tag itself.
#[derive(Debug, Clone, PartialEq, Eq)]
pub struct TagObjectHeader {
    /// Sequence number up to which the seal holds; nonzero.
    pub seqnum: u64,
    pub epoch: u64,
    /// The 32 tag bytes.
    pub tag: Vec<u8>,
}

/// The tag sub-header stored at `off`.
pub open spec fn spec_read_tag_header(s: Seq<u8>, off: u64) -> Result<
    (u64, u64, Seq<u8>),
    JournalError,
> {
    match spec_bounds(s, off, 48) {
        Err(e) => Err(e),
        Ok(_) => {
            let seqnum = le_u64_at(s, off as int);
            if seqnum == 0 {
                Err(JournalError::InvalidData)
            } else {
                Ok((seqnum, le_u64_at(s, off + 8), s.subrange(off + 16, off + 48)))
            }
        },
    }
}

impl TagObjectHeader {
    /// Read the tag sub-header at byte offset `off`.
    pub fn read_at(bytes: &[u8], off: u64) -> (r: Result<TagObjectHeader, JournalError>)
        ensures
            match r {
                Ok(t) => spec_read_tag_header(bytes@, off) == Ok::<(u64, u64, Seq<u8>), JournalError>(
                    (t.seqnum, t.epoch, t.tag@),
                ),
                Err(e) => spec_read_tag_header(bytes@, off) == Err::<
                    (u64, u64, Seq<u8>),
                    JournalError,
                >(e),
            },
    {
        match check_bounds(bytes, off, 48) {
            Err(e) => Err(e),
            Ok(_) => {
                let seqnum = read_u64_at(bytes, off as usize);
                if seqnum == 0 {
                    return Err(JournalError::InvalidData);
                }
                let epoch = read_u64_at(bytes, (off + 8) as usize);
                let tag = slice_to_vec(slice_subrange(bytes, (off + 16) as usize, (off + 48) as usize));
                Ok(TagObjectHeader { seqnum, epoch, tag })
            },
        }
    }
}

} // verus!
