//! An arena-indexed view of an encoded value's payload.
//!
//! Construction parses the meta byte, user meta byte and expiration varint
//! out of the encoded bytes and keeps only the payload's offset and length,
//! so later reads are constant-time.  The view carries no ownership: the
//! caller passes the arena back in to read through it, and must ensure the
//! range stays valid for the pointer's whole use.

use vstd::prelude::*;

use crate::binary::{binary_uvarint, lemma_first_term_bounds, spec_uvarint};
use crate::value::{
    spec_decoded_expires_at, spec_decoded_payload, spec_value_decodable, ValueRef,
};

verus! {

/// A positional reference to a value's payload inside an arena, together
/// with the fields parsed from its encoding.
///
/// Equality on this type is field-for-field (including the payload's
/// position), not payload equality.
#[derive(Debug, Clone, Copy, PartialEq, Eq, Structural)]
pub struct RawValuePointer {
    pub(crate) meta: u8,
    pub(crate) user_meta: u8,
    pub(crate) version: u64,
    pub(crate) offset: usize,
    pub(crate) l: u32,
    pub(crate) expires_at: u64,
}

impl RawValuePointer {
    /// The parsed meta byte.
    pub closed spec fn spec_meta(&self) -> u8 {
        self.meta
    }

    /// The parsed user meta byte.
    pub closed spec fn spec_user_meta(&self) -> u8 {
        self.user_meta
    }

    /// The version attached by the caller; never part of the encoding.
    pub closed spec fn spec_version(&self) -> u64 {
        self.version
    }

    /// The parsed expiration time.
    pub closed spec fn spec_expires_at(&self) -> u64 {
        self.expires_at
    }

    /// The arena offset the payload starts at.
    pub closed spec fn spec_offset(&self) -> usize {
        self.offset
    }

    /// The number of payload bytes.
    pub closed spec fn spec_len(&self) -> u32 {
        self.l
    }

    /// The payload bytes this pointer selects in `arena`.
    pub open spec fn spec_bytes_in(&self, arena: Seq<u8>) -> Seq<u8> {
        arena.subrange(
            self.spec_offset() as int,
            self.spec_offset() + self.spec_len() as int,
        )
    }

    /// Does the selected range lie within `arena`?
    pub open spec fn in_bounds(&self, arena: Seq<u8>) -> bool {
        self.spec_offset() + self.spec_len() <= arena.len()
    }

    /// Parses the encoded value occupying `[offset, offset + len)` of
    /// `arena` and returns a pointer to its payload; `version` starts at 0.
    pub fn new(arena: &[u8], offset: usize, len: u32) -> (r: Self)
        requires
            offset + len <= arena@.len(),
            spec_value_decodable(arena@.subrange(offset as int, offset + len as int)),
        ensures
            r.spec_meta() == arena@.subrange(offset as int, offset + len as int)[0],
            r.spec_user_meta() == arena@.subrange(offset as int, offset + len as int)[1],
            r.spec_version() == 0,
            r.spec_expires_at() == spec_decoded_expires_at(
                arena@.subrange(offset as int, offset + len as int),
            ),
            r.in_bounds(arena@),
            r.spec_bytes_in(arena@) == spec_decoded_payload(
                arena@.subrange(offset as int, offset + len as int),
            ),
    {
        let _arena_len = arena.len();
        let buf = &arena[offset..offset + len as usize];
        let meta = buf[0];
        let user_meta = buf[1];
        let buf_len = buf.len();
        let rest = &buf[2..buf_len];
        proof {
            assert(rest@ =~= arena@.subrange(offset as int, offset + len as int).skip(2));
            lemma_first_term_bounds(rest@);
        }
        let (expires_at, sz) = binary_uvarint(rest);
        let r = RawValuePointer {
            meta,
            user_meta,
            version: 0,
            offset: offset + 2 + sz,
            l: len - (2 + sz) as u32,
            expires_at,
        };
        proof {
            let whole = arena@.subrange(offset as int, offset + len as int);
            assert(r.spec_bytes_in(arena@) =~= whole.skip(2 + spec_uvarint(whole.skip(2)).1));
        }
        r
    }

    /// Returns a borrowed value view over the given arena.
    pub fn as_value_ref<'a>(&self, arena: &'a [u8]) -> (r: ValueRef<'a>)
        requires
            self.in_bounds(arena@),
        ensures
            r.meta == self.spec_meta(),
            r.user_meta == self.spec_user_meta(),
            r.expires_at == self.spec_expires_at(),
            r.version == self.spec_version(),
            r.val@ == self.spec_bytes_in(arena@),
    {
        let _arena_len = arena.len();
        ValueRef {
            meta: self.meta,
            user_meta: self.user_meta,
            expires_at: self.expires_at,
            version: self.version,
            val: &arena[self.offset..self.offset + self.l as usize],
        }
    }

    /// Sets the version for this value.
    pub fn set_version(&mut self, version: u64)
        ensures
            final(self).spec_version() == version,
            final(self).spec_meta() == old(self).spec_meta(),
            final(self).spec_user_meta() == old(self).spec_user_meta(),
            final(self).spec_expires_at() == old(self).spec_expires_at(),
            final(self).spec_offset() == old(self).spec_offset(),
            final(self).spec_len() == old(self).spec_len(),
    {
        self.version = version;
    }

    /// Gets the version for this value.
    pub fn get_version(&self) -> (r: u64)
        ensures
            r == self.spec_version(),
    {
        self.version
    }
}

} // verus!
