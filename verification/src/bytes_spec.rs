//! Trusted boundary around the `bytes` crate.
//!
//! `bytes::Bytes` is a cheaply cloneable, immutable, reference-counted byte
//! buffer and `bytes::BytesMut` its growable counterpart.  Both are opaque to
//! the verifier, so each is given an abstract contents function
//! ([`bytes_view`], [`bytes_mut_view`]) and a small wrapper per method the
//! library calls, whose contract states what the `bytes` documentation
//! promises about the contents.

use vstd::prelude::*;

verus! {

#[verifier::external_type_specification]
#[verifier::external_body]
pub struct ExBytes(bytes::Bytes);

#[verifier::external_type_specification]
#[verifier::external_body]
pub struct ExBytesMut(bytes::BytesMut);

/// The sequence of bytes a `bytes::Bytes` buffer holds.
pub uninterp spec fn bytes_view(b: bytes::Bytes) -> Seq<u8>;

/// The sequence of bytes a `bytes::BytesMut` buffer holds.
pub uninterp spec fn bytes_mut_view(b: bytes::BytesMut) -> Seq<u8>;

/// Relies on `Bytes::new`: an empty buffer.
#[verifier::external_body]
pub(crate) fn bytes_new() -> (r: bytes::Bytes)
    ensures
        bytes_view(r) == Seq::<u8>::empty(),
{
    bytes::Bytes::new()
}

/// Relies on `Bytes::copy_from_slice`: copies the slice into a fresh buffer.
#[verifier::external_body]
pub(crate) fn bytes_copy_from_slice(data: &[u8]) -> (r: bytes::Bytes)
    ensures
        bytes_view(r) == data@,
{
    bytes::Bytes::copy_from_slice(data)
}

/// Relies on `From<Vec<u8>> for Bytes`: takes the vector over unchanged.
#[verifier::external_body]
pub(crate) fn bytes_from_vec(data: Vec<u8>) -> (r: bytes::Bytes)
    ensures
        bytes_view(r) == data@,
{
    bytes::Bytes::from(data)
}

/// Relies on `Clone for Bytes`: a shallow copy of the same contents.
#[verifier::external_body]
pub(crate) fn bytes_clone(b: &bytes::Bytes) -> (r: bytes::Bytes)
    ensures
        bytes_view(r) == bytes_view(*b),
{
    b.clone()
}

/// Relies on `Bytes::len`: the number of bytes in the buffer.
#[verifier::external_body]
pub(crate) fn bytes_len(b: &bytes::Bytes) -> (r: usize)
    ensures
        r == bytes_view(*b).len(),
{
    b.len()
}

/// Relies on `AsRef<[u8]> for Bytes`: a slice of the whole contents.
#[verifier::external_body]
pub(crate) fn bytes_as_slice(b: &bytes::Bytes) -> (r: &[u8])
    ensures
        r@ == bytes_view(*b),
{
    b.as_ref()
}

/// Relies on `Bytes::slice`: the sub-buffer for the given range, without
/// copying.  Panics unless `start <= end <= len`, so that is required here.
#[verifier::external_body]
pub(crate) fn bytes_slice(b: &bytes::Bytes, start: usize, end: usize) -> (r: bytes::Bytes)
    requires
        start <= end <= bytes_view(*b).len(),
    ensures
        bytes_view(r) == bytes_view(*b).subrange(start as int, end as int),
{
    b.slice(start..end)
}

/// Relies on `Bytes::split_off`: the buffer keeps `[0, at)` and the result
/// holds `[at, len)`.  Panics if `at > len`, so that is required here.
#[verifier::external_body]
pub(crate) fn bytes_split_off(b: &mut bytes::Bytes, at: usize) -> (r: bytes::Bytes)
    requires
        at <= bytes_view(*old(b)).len(),
    ensures
        bytes_view(*final(b)) == bytes_view(*old(b)).subrange(0, at as int),
        bytes_view(r) == bytes_view(*old(b)).subrange(
            at as int,
            bytes_view(*old(b)).len() as int,
        ),
{
    b.split_off(at)
}

/// Relies on `Bytes::split_to`: the buffer keeps `[at, len)` and the result
/// holds `[0, at)`.  Panics if `at > len`, so that is required here.
#[verifier::external_body]
pub(crate) fn bytes_split_to(b: &mut bytes::Bytes, at: usize) -> (r: bytes::Bytes)
    requires
        at <= bytes_view(*old(b)).len(),
    ensures
        bytes_view(*final(b)) == bytes_view(*old(b)).subrange(
            at as int,
            bytes_view(*old(b)).len() as int,
        ),
        bytes_view(r) == bytes_view(*old(b)).subrange(0, at as int),
{
    b.split_to(at)
}

/// Relies on `Bytes::truncate`: keeps the first `len` bytes; no effect when
/// `len` is not below the current length.
#[verifier::external_body]
pub(crate) fn bytes_truncate(b: &mut bytes::Bytes, len: usize)
    ensures
        bytes_view(*final(b)) == if len < bytes_view(*old(b)).len() {
            bytes_view(*old(b)).subrange(0, len as int)
        } else {
            bytes_view(*old(b))
        },
{
    b.truncate(len)
}

/// Relies on `BytesMut::new`: an empty growable buffer.
#[verifier::external_body]
pub(crate) fn bytes_mut_new() -> (r: bytes::BytesMut)
    ensures
        bytes_mut_view(r) == Seq::<u8>::empty(),
{
    bytes::BytesMut::new()
}

/// Relies on `BytesMut::with_capacity`: an empty buffer; the capacity is not
/// part of the contents.
#[verifier::external_body]
pub(crate) fn bytes_mut_with_capacity(cap: usize) -> (r: bytes::BytesMut)
    ensures
        bytes_mut_view(r) == Seq::<u8>::empty(),
{
    bytes::BytesMut::with_capacity(cap)
}

/// Relies on `BytesMut::len`: the number of bytes written so far.
#[verifier::external_body]
pub(crate) fn bytes_mut_len(b: &bytes::BytesMut) -> (r: usize)
    ensures
        r == bytes_mut_view(*b).len(),
{
    b.len()
}

/// Relies on `AsRef<[u8]> for BytesMut`: a slice of the whole contents.
#[verifier::external_body]
pub(crate) fn bytes_mut_as_slice(b: &bytes::BytesMut) -> (r: &[u8])
    ensures
        r@ == bytes_mut_view(*b),
{
    b.as_ref()
}

/// Relies on `BytesMut::extend_from_slice`: appends a copy of the slice.
#[verifier::external_body]
pub(crate) fn bytes_mut_extend_from_slice(b: &mut bytes::BytesMut, src: &[u8])
    requires
        bytes_mut_view(*old(b)).len() + src@.len() <= usize::MAX,
    ensures
        bytes_mut_view(*final(b)) == bytes_mut_view(*old(b)) + src@,
{
    b.extend_from_slice(src)
}

/// Relies on `BytesMut::truncate`: keeps the first `len` bytes; no effect
/// when `len` is not below the current length.
#[verifier::external_body]
pub(crate) fn bytes_mut_truncate(b: &mut bytes::BytesMut, len: usize)
    ensures
        bytes_mut_view(*final(b)) == if len < bytes_mut_view(*old(b)).len() {
            bytes_mut_view(*old(b)).subrange(0, len as int)
        } else {
            bytes_mut_view(*old(b))
        },
{
    b.truncate(len)
}

/// Relies on `Clone for BytesMut`: a deep copy of the same contents.
#[verifier::external_body]
pub(crate) fn bytes_mut_clone(b: &bytes::BytesMut) -> (r: bytes::BytesMut)
    ensures
        bytes_mut_view(r) == bytes_mut_view(*b),
{
    b.clone()
}

/// Relies on `BytesMut::freeze`: converts into an immutable buffer with the
/// same contents.
#[verifier::external_body]
pub(crate) fn bytes_mut_freeze(b: bytes::BytesMut) -> (r: bytes::Bytes)
    ensures
        bytes_view(r) == bytes_mut_view(b),
{
    b.freeze()
}

} // verus!
