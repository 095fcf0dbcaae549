//! A zero-copy reader over an already-encoded value buffer.
//!
//! An [`EncodedValue`] holds the full encoding `meta ++ user_meta ++
//! varint(expires_at) ++ payload` and caches the varint's byte length, so
//! the payload boundary is recomputed in constant time.

use vstd::prelude::*;

use crate::binary::{binary_uvarint, spec_uvarint, uvarint_ok};
use crate::bytes_spec::{bytes_as_slice, bytes_clone, bytes_len, bytes_slice, bytes_view};
use crate::value::{spec_decoded_expires_at, spec_decoded_payload, Value, ValueExt};

verus! {

/// The position of the meta byte in an encoded value.
pub const META_OFFSET: usize = 0;

/// The position of the user meta byte in an encoded value.
pub const USER_META_OFFSET: usize = 1;

/// The position of the expiration varint in an encoded value.
pub const EXPIRATION_OFFSET: usize = 2;

/// An already-encoded value: the full encoding plus the cached byte length
/// of its expiration varint.
///
/// When a [`Value`] is encoded, its `version` field is not written, so a
/// value decoded back from an `EncodedValue` always has `version == 0`.
#[derive(Debug)]
pub struct EncodedValue {
    pub(crate) data: bytes::Bytes,
    pub(crate) expires_sz: u8,
}

impl Clone for EncodedValue {
    fn clone(&self) -> (r: Self)
        ensures
            r.spec_data() == self.spec_data(),
            r.spec_expires_sz() == self.spec_expires_sz(),
    {
        EncodedValue { data: bytes_clone(&self.data), expires_sz: self.expires_sz }
    }
}

impl EncodedValue {
    /// The encoded bytes.
    pub closed spec fn spec_data(&self) -> Seq<u8> {
        bytes_view(self.data)
    }

    /// The cached byte length of the expiration varint.
    pub closed spec fn spec_expires_sz(&self) -> u8 {
        self.expires_sz
    }

    /// Well-formedness: the buffer holds both meta bytes and a terminated,
    /// in-range expiration varint whose length is the cached one.
    pub open spec fn wf(&self) -> bool {
        &&& 1 <= self.spec_expires_sz()
        &&& 2 + self.spec_expires_sz() <= self.spec_data().len()
        &&& uvarint_ok(self.spec_data().skip(2))
        &&& spec_uvarint(self.spec_data().skip(2)).1 == self.spec_expires_sz()
    }

    /// Wraps an encoded buffer whose expiration varint is `expires_sz`
    /// bytes long.
    pub(crate) fn from_parts(data: bytes::Bytes, expires_sz: u8) -> (r: Self)
        requires
            1 <= expires_sz,
            2 + expires_sz <= bytes_view(data).len(),
            uvarint_ok(bytes_view(data).skip(2)),
            spec_uvarint(bytes_view(data).skip(2)).1 == expires_sz,
        ensures
            r.wf(),
            r.spec_data() == bytes_view(data),
            r.spec_expires_sz() == expires_sz,
    {
        EncodedValue { data, expires_sz }
    }

    /// Decodes back to a [`Value`]; the payload is a shallow slice of this
    /// buffer and `version` is 0.
    pub fn decode_value(&self) -> (r: Value)
        requires
            self.wf(),
        ensures
            r.meta == self.spec_data()[0],
            r.user_meta == self.spec_data()[1],
            r.expires_at == spec_decoded_expires_at(self.spec_data()),
            r.version == 0,
            bytes_view(r.value) == spec_decoded_payload(self.spec_data()),
    {
        let s = bytes_as_slice(&self.data);
        let meta = s[META_OFFSET];
        let user_meta = s[USER_META_OFFSET];
        let len = s.len();
        let rest = &s[EXPIRATION_OFFSET..len];
        proof {
            assert(rest@ =~= self.spec_data().skip(2));
        }
        proof {
            crate::binary::lemma_first_term_bounds(self.spec_data().skip(2));
        }
        let (expires_at, sz) = binary_uvarint(rest);
        let value = bytes_slice(&self.data, EXPIRATION_OFFSET + sz, len);
        proof {
            assert(self.spec_data().subrange(2 + sz as int, self.spec_data().len() as int)
                =~= spec_decoded_payload(self.spec_data()));
        }
        Value { meta, user_meta, expires_at, version: 0, value }
    }

    /// Returns the length of the encoded value.
    pub fn len(&self) -> (r: usize)
        ensures
            r == self.spec_data().len(),
    {
        bytes_len(&self.data)
    }

    /// Returns true if the encoded value is empty.
    pub fn is_empty(&self) -> (r: bool)
        ensures
            r == (self.spec_data().len() == 0),
    {
        self.len() == 0
    }
}

impl ValueExt for EncodedValue {
    open spec fn inv(&self) -> bool {
        self.wf()
    }

    open spec fn spec_meta(&self) -> u8 {
        self.spec_data()[0]
    }

    open spec fn spec_user_meta(&self) -> u8 {
        self.spec_data()[1]
    }

    open spec fn spec_expires_at(&self) -> u64 {
        spec_decoded_expires_at(self.spec_data())
    }

    open spec fn spec_payload(&self) -> Seq<u8> {
        self.spec_data().skip(2 + self.spec_expires_sz() as int)
    }

    fn parse_value(&self) -> (r: &[u8]) {
        let s = bytes_as_slice(&self.data);
        let len = s.len();
        let r = &s[EXPIRATION_OFFSET + self.expires_sz as usize..len];
        proof {
            assert(r@ =~= self.spec_payload());
        }
        r
    }

    fn parse_value_to_bytes(&self) -> (r: bytes::Bytes) {
        let len = bytes_len(&self.data);
        bytes_slice(&self.data, EXPIRATION_OFFSET + self.expires_sz as usize, len)
    }

    fn get_meta(&self) -> (r: u8) {
        let s = bytes_as_slice(&self.data);
        s[META_OFFSET]
    }

    fn get_user_meta(&self) -> (r: u8) {
        let s = bytes_as_slice(&self.data);
        s[USER_META_OFFSET]
    }

    fn get_expires_at(&self) -> (r: u64) {
        let s = bytes_as_slice(&self.data);
        let len = s.len();
        let rest = &s[EXPIRATION_OFFSET..len];
        proof {
            assert(rest@ =~= self.spec_data().skip(2));
        }
        let (expires_at, _sz) = binary_uvarint(rest);
        expires_at
    }
}

} // verus!
