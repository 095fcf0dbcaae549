//! A mutable key builder: a growable byte buffer that supports appending and
//! an in-place timestamp patch, and freezes into an immutable [`Key`].  The
//! timestamp is stored as the big-endian complement, the same wire layout
//! that [`Key::with_timestamp`] writes.

use vstd::prelude::*;

use crate::binary::u64_to_be_vec;
use crate::bytes_spec::{
    bytes_mut_as_slice, bytes_mut_clone, bytes_mut_extend_from_slice, bytes_mut_freeze,
    bytes_mut_len, bytes_mut_new, bytes_mut_truncate, bytes_mut_view, bytes_mut_with_capacity,
};
use crate::key::{spec_with_timestamp, Key, KeyExt};

verus! {

/// A general mutable key for key-value storage; the underlying storage is a
/// growable byte buffer.
#[derive(Debug, Hash)]
pub struct KeyMut {
    data: bytes::BytesMut,
}

impl View for KeyMut {
    type V = Seq<u8>;

    closed spec fn view(&self) -> Seq<u8> {
        bytes_mut_view(self.data)
    }
}

impl Clone for KeyMut {
    fn clone(&self) -> (r: Self)
        ensures
            r@ == self@,
    {
        KeyMut { data: bytes_mut_clone(&self.data) }
    }
}

impl Default for KeyMut {
    fn default() -> (r: Self)
        ensures
            r@ == Seq::<u8>::empty(),
    {
        KeyMut::new()
    }
}

impl KeyMut {
    /// Creates a new `KeyMut` with default capacity, without allocating.
    pub fn new() -> (r: Self)
        ensures
            r@ == Seq::<u8>::empty(),
    {
        KeyMut { data: bytes_mut_new() }
    }

    /// Creates a new `KeyMut` able to hold at least `cap` bytes without
    /// reallocating.
    pub fn with_capacity(cap: usize) -> (r: Self)
        ensures
            r@ == Seq::<u8>::empty(),
    {
        KeyMut { data: bytes_mut_with_capacity(cap) }
    }

    /// Appends the given bytes to the key under construction.
    pub fn put_slice(&mut self, src: &[u8])
        requires
            old(self)@.len() + src@.len() <= usize::MAX,
        ensures
            final(self)@ == old(self)@ + src@,
    {
        bytes_mut_extend_from_slice(&mut self.data, src)
    }

    /// Generates a new key by appending the big-endian complement of the
    /// timestamp, so that larger timestamps sort earlier.
    pub fn with_timestamp(self, ts: u64) -> (r: Self)
        requires
            self@.len() + 8 <= usize::MAX,
        ensures
            r@ == spec_with_timestamp(self@, ts),
    {
        let mut data = self.data;
        let b = u64_to_be_vec(u64::MAX - ts);
        bytes_mut_extend_from_slice(&mut data, b.as_slice());
        KeyMut { data }
    }

    /// Returns the number of bytes contained in this key.
    pub fn len(&self) -> (r: usize)
        ensures
            r == self@.len(),
    {
        bytes_mut_len(&self.data)
    }

    /// Returns true if the key has a length of 0.
    pub fn is_empty(&self) -> (r: bool)
        ensures
            r == (self@.len() == 0),
    {
        self.len() == 0
    }

    /// Returns the underlying bytes.
    pub fn as_slice(&self) -> (r: &[u8])
        ensures
            r@ == self@,
    {
        bytes_mut_as_slice(&self.data)
    }

    /// Converts self into an immutable [`Key`] with the same contents; the
    /// conversion is zero cost.
    pub fn freeze(self) -> (r: Key)
        ensures
            r@ == self@,
    {
        Key::from_bytes(bytes_mut_freeze(self.data))
    }
}

impl PartialEq for KeyMut {
    fn eq(&self, other: &Self) -> (r: bool) {
        crate::key::same_key_in(self.as_slice(), other.as_slice())
    }
}

impl vstd::std_specs::cmp::PartialEqSpecImpl for KeyMut {
    open spec fn obeys_eq_spec() -> bool {
        true
    }

    open spec fn eq_spec(&self, other: &KeyMut) -> bool {
        crate::key::spec_same_key(self@, other@)
    }
}

impl Eq for KeyMut {}

impl PartialOrd for KeyMut {
    fn partial_cmp(&self, other: &Self) -> (r: Option<core::cmp::Ordering>) {
        Some(crate::key::compare_key_in(self.as_slice(), other.as_slice()))
    }
}

impl vstd::std_specs::cmp::PartialOrdSpecImpl for KeyMut {
    open spec fn obeys_partial_cmp_spec() -> bool {
        true
    }

    open spec fn partial_cmp_spec(&self, other: &KeyMut) -> Option<core::cmp::Ordering> {
        Some(crate::key::spec_compare_key(self@, other@))
    }
}

impl KeyExt for KeyMut {
    open spec fn spec_bytes(&self) -> Seq<u8> {
        self@
    }

    fn as_bytes(&self) -> (r: &[u8]) {
        bytes_mut_as_slice(&self.data)
    }
}

/// Extensions for `KeyMut`.
pub trait KeyMutExt: Sized {
    /// The key bytes this builder currently holds.
    spec fn spec_buf(&self) -> Seq<u8>;

    /// Sets the timestamp for the key: patches the trailing 8 bytes in
    /// place with the big-endian complement of the timestamp, or appends
    /// them when the key is shorter than the suffix.
    fn set_timestamp(&mut self, ts: u64)
        requires
            old(self).spec_buf().len() + 8 <= usize::MAX,
        ensures
            final(self).spec_buf() == if old(self).spec_buf().len() >= 8 {
                spec_with_timestamp(
                    old(self).spec_buf().subrange(0, old(self).spec_buf().len() - 8),
                    ts,
                )
            } else {
                spec_with_timestamp(old(self).spec_buf(), ts)
            },
    ;
}

impl KeyMutExt for KeyMut {
    open spec fn spec_buf(&self) -> Seq<u8> {
        self@
    }

    fn set_timestamp(&mut self, ts: u64) {
        let sz = bytes_mut_len(&self.data);
        let b = u64_to_be_vec(u64::MAX - ts);
        if sz >= 8 {
            bytes_mut_truncate(&mut self.data, sz - 8);
            bytes_mut_extend_from_slice(&mut self.data, b.as_slice());
        } else {
            bytes_mut_extend_from_slice(&mut self.data, b.as_slice());
        }
    }
}

} // verus!
