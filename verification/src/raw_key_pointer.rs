//! An arena-indexed view of key bytes.
//!
//! Instead of a raw memory address, the view holds an offset and a length
//! into an externally owned byte arena.  It carries no ownership: the caller
//! passes the arena back in to read through it, and must ensure the range
//! stays valid for the pointer's whole use.

use vstd::prelude::*;

use crate::key::KeyRef;

verus! {

/// A positional reference to the byte range of a key inside an arena.
///
/// Equality on this type is position identity (same offset and length), not
/// key equality; compare the keys themselves through
/// [`RawKeyPointer::as_key_ref`] and the key comparison functions.
#[derive(Debug, Clone, Copy, PartialEq, Eq, Structural)]
pub struct RawKeyPointer {
    offset: usize,
    l: u32,
}

impl RawKeyPointer {
    /// The arena offset the key bytes start at.
    pub closed spec fn spec_offset(&self) -> usize {
        self.offset
    }

    /// The number of key bytes.
    pub closed spec fn spec_len(&self) -> u32 {
        self.l
    }

    /// The key bytes this pointer selects in `arena`.
    pub open spec fn spec_bytes_in(&self, arena: Seq<u8>) -> Seq<u8> {
        arena.subrange(
            self.spec_offset() as int,
            self.spec_offset() + self.spec_len() as int,
        )
    }

    /// Does the selected range lie within `arena`?
    pub open spec fn in_bounds(&self, arena: Seq<u8>) -> bool {
        self.spec_offset() + self.spec_len() <= arena.len()
    }

    /// Returns a pointer to `len` key bytes starting at `offset`.  The
    /// caller is responsible for the range staying valid in its arena.
    pub fn new(offset: usize, len: u32) -> (r: Self)
        ensures
            r.spec_offset() == offset,
            r.spec_len() == len,
    {
        RawKeyPointer { offset, l: len }
    }

    /// The arena offset the key bytes start at.
    pub fn offset(&self) -> (r: usize)
        ensures
            r == self.spec_offset(),
    {
        self.offset
    }

    /// The number of key bytes.
    pub fn len(&self) -> (r: u32)
        ensures
            r == self.spec_len(),
    {
        self.l
    }

    /// Converts this pointer to a key view over the given arena.
    pub fn as_key_ref<'a>(&self, arena: &'a [u8]) -> (r: KeyRef<'a>)
        requires
            self.in_bounds(arena@),
        ensures
            r@ == self.spec_bytes_in(arena@),
    {
        let _arena_len = arena.len();
        KeyRef::new(&arena[self.offset..self.offset + self.l as usize])
    }
}

} // verus!
