//! Values for a key-value store, with their wire encoding.
//!
//! A value encodes as `meta (1 byte) ++ user_meta (1 byte) ++
//! varint(expires_at) ++ payload`.  The `version` field is never encoded:
//! decoding always yields `version == 0`, and the caller attaches the real
//! version from external context.

use vstd::prelude::*;

use crate::binary::{
    binary_uvarint, lemma_uvarint_enc, lemma_varint_enc_shape,
    put_binary_uvarint_to_vec, size_variant, spec_uvarint, uvarint_ok, varint_enc,
};
use crate::bytes_spec::{
    bytes_as_slice, bytes_clone, bytes_copy_from_slice, bytes_from_vec, bytes_len, bytes_new,
    bytes_slice, bytes_view,
};
use crate::value_enc::EncodedValue;

verus! {

/// The bytes a value with the given fields encodes to.
pub open spec fn spec_encode_value(
    meta: u8,
    user_meta: u8,
    expires_at: u64,
    payload: Seq<u8>,
) -> Seq<u8> {
    seq![meta, user_meta] + varint_enc(expires_at) + payload
}

/// An encoded value can be decoded: it holds the two meta bytes and a
/// terminated, in-range expiration varint.
pub open spec fn spec_value_decodable(s: Seq<u8>) -> bool {
    s.len() >= 2 && uvarint_ok(s.skip(2))
}

/// The expiration a decodable encoding holds.
pub open spec fn spec_decoded_expires_at(s: Seq<u8>) -> u64 {
    spec_uvarint(s.skip(2)).0
}

/// The payload a decodable encoding holds.
pub open spec fn spec_decoded_payload(s: Seq<u8>) -> Seq<u8> {
    s.skip(2 + spec_uvarint(s.skip(2)).1)
}

/// Decoding an encoded value recovers every field it stores.
pub proof fn lemma_value_round_trip(meta: u8, user_meta: u8, expires_at: u64, payload: Seq<u8>)
    ensures
        spec_value_decodable(spec_encode_value(meta, user_meta, expires_at, payload)),
        spec_encode_value(meta, user_meta, expires_at, payload)[0] == meta,
        spec_encode_value(meta, user_meta, expires_at, payload)[1] == user_meta,
        spec_decoded_expires_at(spec_encode_value(meta, user_meta, expires_at, payload))
            == expires_at,
        spec_decoded_payload(spec_encode_value(meta, user_meta, expires_at, payload)) == payload,
{
    let s = spec_encode_value(meta, user_meta, expires_at, payload);
    let e = varint_enc(expires_at);
    lemma_uvarint_enc(expires_at, payload);
    assert(s.skip(2) =~= e + payload);
    assert(s[0] == meta);
    assert(s[1] == user_meta);
    assert(spec_uvarint(s.skip(2)) == (expires_at, e.len() as usize));
    lemma_varint_enc_shape(expires_at);
    assert(s.skip(2 + e.len() as int) =~= payload);
}

/// A value together with its bookkeeping fields.  `version` is a helper
/// field that is never serialized.
#[derive(Debug)]
pub struct Value {
    /// Internal meta byte.
    pub meta: u8,
    /// Caller-defined meta byte.
    pub user_meta: u8,
    /// Expiration as unix seconds; 0 means no expiration.
    pub expires_at: u64,
    /// Version attached by the caller after decoding; never encoded.
    pub version: u64,
    /// The payload bytes.
    pub value: bytes::Bytes,
}

impl Clone for Value {
    fn clone(&self) -> (r: Self)
        ensures
            r.meta == self.meta,
            r.user_meta == self.user_meta,
            r.expires_at == self.expires_at,
            r.version == self.version,
            bytes_view(r.value) == bytes_view(self.value),
    {
        Value {
            meta: self.meta,
            user_meta: self.user_meta,
            expires_at: self.expires_at,
            version: self.version,
            value: bytes_clone(&self.value),
        }
    }
}

impl PartialEq for Value {
    fn eq(&self, other: &Self) -> (r: bool) {
        self.meta == other.meta && self.user_meta == other.user_meta && self.expires_at
            == other.expires_at && self.version == other.version && crate::bytes_cmp::slice_eq(
            bytes_as_slice(&self.value),
            bytes_as_slice(&other.value),
        )
    }
}

impl vstd::std_specs::cmp::PartialEqSpecImpl for Value {
    open spec fn obeys_eq_spec() -> bool {
        true
    }

    open spec fn eq_spec(&self, other: &Value) -> bool {
        &&& self.meta == other.meta
        &&& self.user_meta == other.user_meta
        &&& self.expires_at == other.expires_at
        &&& self.version == other.version
        &&& bytes_view(self.value) == bytes_view(other.value)
    }
}

impl Eq for Value {}

impl Default for Value {
    fn default() -> (r: Self)
        ensures
            r.meta == 0 && r.user_meta == 0 && r.expires_at == 0 && r.version == 0,
            bytes_view(r.value) == Seq::<u8>::empty(),
    {
        Value::new()
    }
}

impl Value {
    /// Returns an empty value.
    pub fn new() -> (r: Self)
        ensures
            r.meta == 0 && r.user_meta == 0 && r.expires_at == 0 && r.version == 0,
            bytes_view(r.value) == Seq::<u8>::empty(),
    {
        Value { meta: 0, user_meta: 0, expires_at: 0, version: 0, value: bytes_new() }
    }

    /// Returns a value with the given payload and zeroed bookkeeping fields.
    pub fn from_vec(data: Vec<u8>) -> (r: Self)
        ensures
            r.meta == 0 && r.user_meta == 0 && r.expires_at == 0 && r.version == 0,
            bytes_view(r.value) == data@,
    {
        Value { meta: 0, user_meta: 0, expires_at: 0, version: 0, value: bytes_from_vec(data) }
    }

    /// Returns the version for this value.
    pub fn get_version(&self) -> (r: u64)
        ensures
            r == self.version,
    {
        self.version
    }

    /// Returns a borrowed view of this value.
    pub fn as_value_ref(&self) -> (r: ValueRef<'_>)
        ensures
            r.meta == self.meta,
            r.user_meta == self.user_meta,
            r.expires_at == self.expires_at,
            r.version == self.version,
            r.val@ == bytes_view(self.value),
    {
        ValueRef {
            meta: self.meta,
            user_meta: self.user_meta,
            expires_at: self.expires_at,
            version: self.version,
            val: bytes_as_slice(&self.value),
        }
    }

    /// Returns the number of bytes contained in the payload.
    pub fn len(&self) -> (r: usize)
        ensures
            r == bytes_view(self.value).len(),
    {
        bytes_len(&self.value)
    }

    /// Returns true if the payload has a length of 0.
    pub fn is_empty(&self) -> (r: bool)
        ensures
            r == (bytes_view(self.value).len() == 0),
    {
        self.len() == 0
    }
}

/// Extensions for anything that stands for a value: field access plus the
/// wire codec.
pub trait ValueExt: Sized {
    /// The representation invariant the accessors rely on.
    spec fn inv(&self) -> bool;

    /// The internal meta byte.
    spec fn spec_meta(&self) -> u8;

    /// The caller-defined meta byte.
    spec fn spec_user_meta(&self) -> u8;

    /// The expiration time.
    spec fn spec_expires_at(&self) -> u64;

    /// The payload bytes.
    spec fn spec_payload(&self) -> Seq<u8>;

    /// Returns the payload.
    fn parse_value(&self) -> (r: &[u8])
        requires
            self.inv(),
        ensures
            r@ == self.spec_payload(),
    ;

    /// Returns the payload as a shared buffer (shallow copy where possible).
    fn parse_value_to_bytes(&self) -> (r: bytes::Bytes)
        requires
            self.inv(),
        ensures
            bytes_view(r) == self.spec_payload(),
    ;

    /// Gets the meta byte.
    fn get_meta(&self) -> (r: u8)
        requires
            self.inv(),
        ensures
            r == self.spec_meta(),
    ;

    /// Gets the user meta byte.
    fn get_user_meta(&self) -> (r: u8)
        requires
            self.inv(),
        ensures
            r == self.spec_user_meta(),
    ;

    /// Returns the expiration time (unix seconds) for this value.
    fn get_expires_at(&self) -> (r: u64)
        requires
            self.inv(),
        ensures
            r == self.spec_expires_at(),
    ;

    /// Returns the size of the value when encoded; it equals the length of
    /// what [`ValueExt::encode`] returns.
    fn encoded_size(&self) -> (r: u32)
        requires
            self.inv(),
            self.spec_payload().len() + 12 <= u32::MAX,
        ensures
            r == spec_encode_value(
                self.spec_meta(),
                self.spec_user_meta(),
                self.spec_expires_at(),
                self.spec_payload(),
            ).len(),
    {
        let sz = self.parse_value().len() + 2;
        let enc = size_variant(self.get_expires_at());
        proof {
            lemma_varint_enc_shape(self.spec_expires_at());
        }
        (sz + enc) as u32
    }

    /// Encodes the value: meta, user meta, expiration varint, payload.
    fn encode(&self) -> (r: Vec<u8>)
        requires
            self.inv(),
            self.spec_payload().len() + 12 <= usize::MAX,
        ensures
            r@ == spec_encode_value(
                self.spec_meta(),
                self.spec_user_meta(),
                self.spec_expires_at(),
                self.spec_payload(),
            ),
    {
        let mut buf: Vec<u8> = Vec::new();
        buf.push(self.get_meta());
        buf.push(self.get_user_meta());
        put_binary_uvarint_to_vec(&mut buf, self.get_expires_at());
        proof {
            lemma_varint_enc_shape(self.spec_expires_at());
        }
        buf.extend_from_slice(self.parse_value());
        proof {
            assert(buf@ =~= spec_encode_value(
                self.spec_meta(),
                self.spec_user_meta(),
                self.spec_expires_at(),
                self.spec_payload(),
            ));
        }
        buf
    }

    /// Encodes into an [`EncodedValue`], which caches the varint length.
    fn to_encoded(&self) -> (r: EncodedValue)
        requires
            self.inv(),
            self.spec_payload().len() + 12 <= usize::MAX,
        ensures
            r.wf(),
            r.spec_data() == spec_encode_value(
                self.spec_meta(),
                self.spec_user_meta(),
                self.spec_expires_at(),
                self.spec_payload(),
            ),
    {
        let mut data: Vec<u8> = Vec::new();
        data.push(self.get_meta());
        data.push(self.get_user_meta());
        put_binary_uvarint_to_vec(&mut data, self.get_expires_at());
        proof {
            lemma_varint_enc_shape(self.spec_expires_at());
        }
        let expires_sz = data.len() - 2;
        data.extend_from_slice(self.parse_value());
        proof {
            lemma_uvarint_enc(self.spec_expires_at(), self.spec_payload());
            assert(data@ =~= spec_encode_value(
                self.spec_meta(),
                self.spec_user_meta(),
                self.spec_expires_at(),
                self.spec_payload(),
            ));
            assert(data@.skip(2) =~= varint_enc(self.spec_expires_at()) + self.spec_payload());
        }
        EncodedValue::from_parts(bytes_from_vec(data), expires_sz as u8)
    }

    /// Decodes a value from a slice, copying the payload.  The input must be
    /// well formed, as produced by [`ValueExt::encode`]; `version` is always
    /// 0 afterwards.
    fn decode(src: &[u8]) -> (r: Value)
        requires
            spec_value_decodable(src@),
        ensures
            r.meta == src@[0],
            r.user_meta == src@[1],
            r.expires_at == spec_decoded_expires_at(src@),
            r.version == 0,
            bytes_view(r.value) == spec_decoded_payload(src@),
    {
        let meta = src[0];
        let user_meta = src[1];
        let rest = &src[2..src.len()];
        proof {
            assert(rest@ =~= src@.skip(2));
        }
        proof {
            crate::binary::lemma_first_term_bounds(src@.skip(2));
        }
        let (expires_at, sz) = binary_uvarint(rest);
        let value = bytes_copy_from_slice(&src[2 + sz..src.len()]);
        proof {
            assert(src@.subrange(2 + sz as int, src@.len() as int) =~= spec_decoded_payload(
                src@,
            ));
        }
        Value { meta, user_meta, expires_at, version: 0, value }
    }

    /// Decodes a value from a shared buffer; the payload is a shallow slice
    /// of the input.  `version` is always 0 afterwards.
    fn decode_bytes(src: bytes::Bytes) -> (r: Value)
        requires
            spec_value_decodable(bytes_view(src)),
        ensures
            r.meta == bytes_view(src)[0],
            r.user_meta == bytes_view(src)[1],
            r.expires_at == spec_decoded_expires_at(bytes_view(src)),
            r.version == 0,
            bytes_view(r.value) == spec_decoded_payload(bytes_view(src)),
    {
        let s = bytes_as_slice(&src);
        let meta = s[0];
        let user_meta = s[1];
        let len = s.len();
        let rest = &s[2..len];
        proof {
            assert(rest@ =~= bytes_view(src).skip(2));
        }
        proof {
            crate::binary::lemma_first_term_bounds(bytes_view(src).skip(2));
        }
        let (expires_at, sz) = binary_uvarint(rest);
        let value = bytes_slice(&src, 2 + sz, len);
        proof {
            assert(bytes_view(src).subrange(2 + sz as int, bytes_view(src).len() as int)
                =~= spec_decoded_payload(bytes_view(src)));
        }
        Value { meta, user_meta, expires_at, version: 0, value }
    }
}

impl ValueExt for Value {
    open spec fn inv(&self) -> bool {
        true
    }

    open spec fn spec_meta(&self) -> u8 {
        self.meta
    }

    open spec fn spec_user_meta(&self) -> u8 {
        self.user_meta
    }

    open spec fn spec_expires_at(&self) -> u64 {
        self.expires_at
    }

    open spec fn spec_payload(&self) -> Seq<u8> {
        bytes_view(self.value)
    }

    fn parse_value(&self) -> (r: &[u8]) {
        bytes_as_slice(&self.value)
    }

    fn parse_value_to_bytes(&self) -> (r: bytes::Bytes) {
        bytes_clone(&self.value)
    }

    fn get_meta(&self) -> (r: u8) {
        self.meta
    }

    fn get_user_meta(&self) -> (r: u8) {
        self.user_meta
    }

    fn get_expires_at(&self) -> (r: u64) {
        self.expires_at
    }
}

/// Does the payload of `a` begin with the payload of `b`?
pub fn value_has_prefix<A: ValueExt, B: ValueExt>(a: &A, b: &B) -> (r: bool)
    requires
        a.inv(),
        b.inv(),
    ensures
        r == crate::bytes_cmp::is_prefix_of(b.spec_payload(), a.spec_payload()),
{
    crate::bytes_cmp::starts_with(a.parse_value(), b.parse_value())
}

/// Does the payload of `a` end with the payload of `b`?
pub fn value_has_suffix<A: ValueExt, B: ValueExt>(a: &A, b: &B) -> (r: bool)
    requires
        a.inv(),
        b.inv(),
    ensures
        r == crate::bytes_cmp::is_suffix_of(b.spec_payload(), a.spec_payload()),
{
    crate::bytes_cmp::ends_with(a.parse_value(), b.parse_value())
}

/// The longest prefix the two payloads share, as a slice of `a`'s.
pub fn value_longest_prefix<'a, A: ValueExt, B: ValueExt>(a: &'a A, b: &B) -> (r: &'a [u8])
    requires
        a.inv(),
        b.inv(),
    ensures
        r@ == a.spec_payload().subrange(
            0,
            crate::bytes_cmp::lcp_len(a.spec_payload(), b.spec_payload()) as int,
        ),
{
    let k1 = a.parse_value();
    let k2 = b.parse_value();
    let n = crate::bytes_cmp::common_prefix_len(k1, k2);
    &k1[0..n]
}

/// The longest suffix the two payloads share, as a slice of `a`'s.
pub fn value_longest_suffix<'a, A: ValueExt, B: ValueExt>(a: &'a A, b: &B) -> (r: &'a [u8])
    requires
        a.inv(),
        b.inv(),
    ensures
        r@ == a.spec_payload().subrange(
            a.spec_payload().len() - crate::bytes_cmp::lcs_len(
                a.spec_payload(),
                b.spec_payload(),
            ),
            a.spec_payload().len() as int,
        ),
{
    let k1 = a.parse_value();
    let k2 = b.parse_value();
    let n = crate::bytes_cmp::common_suffix_len(k1, k2);
    let k1_len = k1.len();
    &k1[k1_len - n..k1_len]
}

/// A borrowed view of a value's fields and payload.
#[derive(Debug, Clone, Copy, PartialEq, Eq)]
pub struct ValueRef<'a> {
    /// Internal meta byte.
    pub meta: u8,
    /// Caller-defined meta byte.
    pub user_meta: u8,
    /// Expiration as unix seconds; 0 means no expiration.
    pub expires_at: u64,
    /// Version attached by the caller; never encoded.
    pub version: u64,
    /// The payload bytes.
    pub val: &'a [u8],
}

impl<'a> ValueRef<'a> {
    /// Copies this view into a new owned value.
    pub fn to_value(&self) -> (r: Value)
        ensures
            r.meta == self.meta,
            r.user_meta == self.user_meta,
            r.expires_at == self.expires_at,
            r.version == self.version,
            bytes_view(r.value) == self.val@,
    {
        Value {
            meta: self.meta,
            user_meta: self.user_meta,
            expires_at: self.expires_at,
            version: self.version,
            value: bytes_copy_from_slice(self.val),
        }
    }

    /// Gets the value version.
    pub fn get_version(&self) -> (r: u64)
        ensures
            r == self.version,
    {
        self.version
    }
}

impl<'a> ValueExt for ValueRef<'a> {
    open spec fn inv(&self) -> bool {
        true
    }

    open spec fn spec_meta(&self) -> u8 {
        self.meta
    }

    open spec fn spec_user_meta(&self) -> u8 {
        self.user_meta
    }

    open spec fn spec_expires_at(&self) -> u64 {
        self.expires_at
    }

    open spec fn spec_payload(&self) -> Seq<u8> {
        self.val@
    }

    fn parse_value(&self) -> (r: &[u8]) {
        self.val
    }

    fn parse_value_to_bytes(&self) -> (r: bytes::Bytes) {
        bytes_copy_from_slice(self.val)
    }

    fn get_meta(&self) -> (r: u8) {
        self.meta
    }

    fn get_user_meta(&self) -> (r: u8) {
        self.user_meta
    }

    fn get_expires_at(&self) -> (r: u64) {
        self.expires_at
    }
}

} // verus!
