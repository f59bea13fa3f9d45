//! The index that may follow the payload of a CAR v2 file.
//!
//! `IndexSorted` (0x0400) is a run of buckets ordered by entry width; each is
//! `entry_width: u32le || entry_count: u64le` and that many entries of a digest
//! (`entry_width - 8` bytes) and an offset (`u64le`), sorted by digest.
//! `MultihashIndexSorted` (0x0401) groups such buckets under a multihash code
//! (an unsigned varint), in ascending code order.

use vstd::prelude::*;

verus! {

/// One index entry that owns its digest.
#[derive(Debug, Clone, PartialEq, Eq)]
pub struct OwnedIndexEntry {
    /// Digest of the block.
    pub hash: Vec<u8>,
    /// Offset of the block's section, from the start of the v1 payload.
    pub offset: u64,
}

/// One index entry that borrows its digest.
#[derive(Debug, Clone, PartialEq, Eq)]
pub struct IndexEntry<'a> {
    pub hash: &'a [u8],
    pub offset: u64,
}

/// The head of an `IndexSorted` bucket.
#[derive(Debug, Clone, Copy, PartialEq, Eq, Structural)]
pub struct IndexSortedBucketHeader {
    /// Size of each entry: the digest and 8 bytes of offset.
    pub entry_width: u32,
    pub entry_count: u64,
}

/// The head of a `MultihashIndexSorted` bucket.
#[derive(Debug, Clone, Copy, PartialEq, Eq, Structural)]
pub struct MultihashIndexSortedBucketHeader {
    pub multihash_code: u64,
    pub entry_width: u32,
    pub entry_count: u64,
}

/// The layout of an index.
#[derive(Debug, Clone, Copy, PartialEq, Eq, Structural)]
#[non_exhaustive]
pub enum IndexType {
    /// Code 0x0400.
    IndexSorted,
    /// Code 0x0401.
    MultihashIndexSorted,
}

impl IndexType {
    /// The index type of a code, if it is one.
    pub fn from_u64(value: u64) -> (r: Option<IndexType>)
        ensures
            r == (if value == 0x0400 {
                Some(IndexType::IndexSorted)
            } else if value == 0x0401 {
                Some(IndexType::MultihashIndexSorted)
            } else {
                None
            }),
    {
        if value == 0x0400 {
            Some(IndexType::IndexSorted)
        } else if value == 0x0401 {
            Some(IndexType::MultihashIndexSorted)
        } else {
            None
        }
    }

    /// The code of the index type.
    pub fn code(&self) -> (r: u64)
        ensures
            r == (match self {
                IndexType::IndexSorted => 0x0400u64,
                IndexType::MultihashIndexSorted => 0x0401u64,
            }),
    {
        match self {
            IndexType::IndexSorted => 0x0400,
            IndexType::MultihashIndexSorted => 0x0401,
        }
    }
}

} // verus!
