//! Keys for a sorted, multi-versioned key-value store.
//!
//! A key is a byte string: user-key bytes followed by an 8-byte big-endian
//! suffix holding `u64::MAX - timestamp`, so that keys with equal user-key
//! bytes sort newest timestamp first.  Keys shorter than the suffix are a
//! documented degenerate case: their timestamp reads as 0 and the whole
//! content counts as user key.

use core::cmp::Ordering;
use vstd::prelude::*;

use crate::binary::{
    be_val, lemma_be_bytes_mono, lemma_be_bytes_n_len, lemma_be_val_of_be_bytes, lemma_pow256_vals, u64_be_bytes, u64_big_endian,
    u64_to_be_vec,
};
use crate::bytes_cmp::{
    common_prefix_len, common_suffix_len, compare_bytes, ends_with, is_prefix_of, is_suffix_of,
    lcp_len, lcs_len, lemma_lcp_self, lemma_lex_eq, lex_cmp, slice_eq, starts_with,
};
use crate::bytes_spec::{
    bytes_as_slice, bytes_clone, bytes_copy_from_slice, bytes_from_vec, bytes_len, bytes_new,
    bytes_slice, bytes_split_off, bytes_split_to, bytes_truncate, bytes_view,
};

verus! {

/// Number of bytes of the timestamp suffix.
pub(crate) const TIMESTAMP_SIZE: usize = 8;

/// The user-key part: everything before the timestamp suffix, or the whole
/// key when it is no longer than the suffix.
pub open spec fn spec_parse_key(s: Seq<u8>) -> Seq<u8> {
    if s.len() <= 8 {
        s
    } else {
        s.subrange(0, s.len() - 8)
    }
}

/// The key with its trailing 8 bytes removed; shorter keys are unchanged.
/// This is the prefix that comparison and `same_key` operate on.
pub open spec fn spec_strip_timestamp(s: Seq<u8>) -> Seq<u8> {
    if s.len() >= 8 {
        s.subrange(0, s.len() - 8)
    } else {
        s
    }
}

/// The 8-byte suffix that comparison resolves ties with; empty for keys
/// shorter than 8 bytes.
pub open spec fn spec_timestamp_suffix(s: Seq<u8>) -> Seq<u8> {
    if s.len() >= 8 {
        s.subrange(s.len() - 8, s.len() as int)
    } else {
        Seq::empty()
    }
}

/// The timestamp stored in a key: 0 when the key is no longer than the
/// suffix, else the complement of the big-endian value of the last 8 bytes.
pub open spec fn spec_timestamp(s: Seq<u8>) -> u64 {
    if s.len() <= 8 {
        0
    } else {
        (u64::MAX - be_val(s.subrange(s.len() - 8, s.len() as int))) as u64
    }
}

/// The bytes of a key built from user-key bytes and a timestamp.
pub open spec fn spec_with_timestamp(s: Seq<u8>, ts: u64) -> Seq<u8> {
    s + u64_be_bytes((u64::MAX - ts) as u64)
}

/// Key order: compare the stripped prefixes lexicographically; on a tie,
/// compare the 8-byte suffixes, which sorts newer timestamps first.
pub open spec fn spec_compare_key(a: Seq<u8>, b: Seq<u8>) -> Ordering {
    let c = lex_cmp(spec_strip_timestamp(a), spec_strip_timestamp(b));
    if c != Ordering::Equal {
        c
    } else {
        lex_cmp(spec_timestamp_suffix(a), spec_timestamp_suffix(b))
    }
}

/// Key equality ignoring the version timestamp: equal lengths and equal
/// stripped prefixes.
pub open spec fn spec_same_key(a: Seq<u8>, b: Seq<u8>) -> bool {
    a.len() == b.len() && spec_strip_timestamp(a) == spec_strip_timestamp(b)
}

/// The user-key part of `data` as a slice.
pub(crate) fn parse_key_in(data: &[u8]) -> (r: &[u8])
    ensures
        r@ == spec_parse_key(data@),
{
    let sz = data.len();
    if sz <= TIMESTAMP_SIZE {
        data
    } else {
        &data[0..sz - TIMESTAMP_SIZE]
    }
}

/// The timestamp stored in `data`.
pub(crate) fn parse_timestamp_in(data: &[u8]) -> (r: u64)
    ensures
        r == spec_timestamp(data@),
{
    let sz = data.len();
    if sz <= TIMESTAMP_SIZE {
        0
    } else {
        let tail = &data[sz - TIMESTAMP_SIZE..sz];
        proof {
            assert(tail@ =~= data@.subrange(data@.len() - 8, data@.len() as int));
            assert(tail@.subrange(0, 8) =~= tail@);
        }
        let v = u64_big_endian(tail);
        u64::MAX - v
    }
}

/// Compares two keys: stripped prefixes first, suffixes on a tie.
pub(crate) fn compare_key_in(me: &[u8], other: &[u8]) -> (r: Ordering)
    ensures
        r == spec_compare_key(me@, other@),
{
    let sl = me.len();
    let ol = other.len();
    let sb = if sl >= TIMESTAMP_SIZE {
        sl - TIMESTAMP_SIZE
    } else {
        sl
    };
    let ob = if ol >= TIMESTAMP_SIZE {
        ol - TIMESTAMP_SIZE
    } else {
        ol
    };
    let s_key_part = &me[0..sb];
    let s_ts_part = &me[sb..sl];
    let o_key_part = &other[0..ob];
    let o_ts_part = &other[ob..ol];
    proof {
        assert(s_key_part@ =~= spec_strip_timestamp(me@));
        assert(o_key_part@ =~= spec_strip_timestamp(other@));
        assert(s_ts_part@ =~= spec_timestamp_suffix(me@));
        assert(o_ts_part@ =~= spec_timestamp_suffix(other@));
    }
    let c = compare_bytes(s_key_part, o_key_part);
    match c {
        Ordering::Equal => compare_bytes(s_ts_part, o_ts_part),
        _ => c,
    }
}

/// Key equality ignoring the version timestamp.
pub(crate) fn same_key_in(me: &[u8], other: &[u8]) -> (r: bool)
    ensures
        r == spec_same_key(me@, other@),
{
    let sl = me.len();
    let ol = other.len();
    if sl != ol {
        false
    } else {
        let s = if sl >= TIMESTAMP_SIZE {
            &me[0..sl - TIMESTAMP_SIZE]
        } else {
            me
        };
        let o = if ol >= TIMESTAMP_SIZE {
            &other[0..ol - TIMESTAMP_SIZE]
        } else {
            other
        };
        proof {
            assert(s@ =~= spec_strip_timestamp(me@));
            assert(o@ =~= spec_strip_timestamp(other@));
        }
        slice_eq(s, o)
    }
}

/// A general key for key-value storage; the underlying storage is a shared,
/// immutable byte buffer, so cloning and slicing are cheap.
#[derive(Debug, Hash)]
pub struct Key {
    data: bytes::Bytes,
}

impl View for Key {
    type V = Seq<u8>;

    closed spec fn view(&self) -> Seq<u8> {
        bytes_view(self.data)
    }
}

impl Clone for Key {
    fn clone(&self) -> (r: Self)
        ensures
            r@ == self@,
    {
        Key { data: bytes_clone(&self.data) }
    }
}

impl Default for Key {
    fn default() -> (r: Self)
        ensures
            r@ == Seq::<u8>::empty(),
    {
        Key::new()
    }
}

impl Key {
    /// Returns an empty key.
    pub fn new() -> (r: Self)
        ensures
            r@ == Seq::<u8>::empty(),
    {
        Key { data: bytes_new() }
    }

    /// Returns a key that takes over the given buffer.
    pub fn from_bytes(data: bytes::Bytes) -> (r: Self)
        ensures
            r@ == bytes_view(data),
    {
        Key { data }
    }

    /// Returns a key that takes over the given vector.
    pub fn from_vec(data: Vec<u8>) -> (r: Self)
        ensures
            r@ == data@,
    {
        Key { data: bytes_from_vec(data) }
    }

    /// Returns a key with the given user-key bytes and timestamp.
    pub fn from_with_timestamp(data: Vec<u8>, ts: u64) -> (r: Self)
        requires
            data@.len() + 8 <= usize::MAX,
        ensures
            r@ == spec_with_timestamp(data@, ts),
    {
        Self::from_vec(data).with_timestamp(ts)
    }

    /// Returns a key by copying the slice.
    pub fn copy_from_slice(data: &[u8]) -> (r: Self)
        ensures
            r@ == data@,
    {
        Key { data: bytes_copy_from_slice(data) }
    }

    /// Generates a new key by appending the big-endian complement of the
    /// timestamp, so that larger timestamps sort earlier.
    pub fn with_timestamp(self, ts: u64) -> (r: Self)
        requires
            self@.len() + 8 <= usize::MAX,
        ensures
            r@ == spec_with_timestamp(self@, ts),
    {
        let s = bytes_as_slice(&self.data);
        let mut v: Vec<u8> = Vec::new();
        v.extend_from_slice(s);
        let ts_bytes = u64_to_be_vec(u64::MAX - ts);
        v.extend_from_slice(ts_bytes.as_slice());
        proof {
            assert(v@ =~= spec_with_timestamp(self@, ts));
        }
        Key { data: bytes_from_vec(v) }
    }

    /// Returns a new key without the timestamp suffix.
    pub fn parse_new_key(&self) -> (r: Self)
        ensures
            r@ == spec_parse_key(self@),
    {
        let sz = bytes_len(&self.data);
        if sz <= TIMESTAMP_SIZE {
            Key { data: bytes_clone(&self.data) }
        } else {
            Key { data: bytes_slice(&self.data, 0, sz - TIMESTAMP_SIZE) }
        }
    }

    /// Returns the number of bytes contained in this key.
    pub fn len(&self) -> (r: usize)
        ensures
            r == self@.len(),
    {
        bytes_len(&self.data)
    }

    /// Returns true if the key has a length of 0.
    pub fn is_empty(&self) -> (r: bool)
        ensures
            r == (self@.len() == 0),
    {
        self.len() == 0
    }

    /// Returns the underlying bytes.
    pub fn as_slice(&self) -> (r: &[u8])
        ensures
            r@ == self@,
    {
        bytes_as_slice(&self.data)
    }

    /// Returns a key for the sub-range `[start, end)` of this key, sharing
    /// the same allocation.
    pub fn slice(&self, start: usize, end: usize) -> (r: Self)
        requires
            start <= end <= self@.len(),
        ensures
            r@ == self@.subrange(start as int, end as int),
    {
        Key { data: bytes_slice(&self.data, start, end) }
    }

    /// Splits the key into two at the given index.  Afterwards `self`
    /// contains elements `[0, at)` and the returned key `[at, len)`.
    pub fn split_off(&mut self, at: usize) -> (r: Self)
        requires
            at <= old(self)@.len(),
        ensures
            final(self)@ == old(self)@.subrange(0, at as int),
            r@ == old(self)@.subrange(at as int, old(self)@.len() as int),
    {
        Key { data: bytes_split_off(&mut self.data, at) }
    }

    /// Splits the key into two at the given index.  Afterwards `self`
    /// contains elements `[at, len)` and the returned key `[0, at)`.
    pub fn split_to(&mut self, at: usize) -> (r: Self)
        requires
            at <= old(self)@.len(),
        ensures
            final(self)@ == old(self)@.subrange(at as int, old(self)@.len() as int),
            r@ == old(self)@.subrange(0, at as int),
    {
        Key { data: bytes_split_to(&mut self.data, at) }
    }

    /// Shortens the key to its first `len` bytes; no effect when `len` is
    /// not below the current length.
    pub fn truncate(&mut self, len: usize)
        ensures
            final(self)@ == if len < old(self)@.len() {
                old(self)@.subrange(0, len as int)
            } else {
                old(self)@
            },
    {
        bytes_truncate(&mut self.data, len)
    }

    /// Removes the timestamp suffix, if the key carries one.
    pub fn truncate_timestamp(&mut self)
        ensures
            final(self)@ == spec_parse_key(old(self)@),
    {
        let sz = bytes_len(&self.data);
        if sz > TIMESTAMP_SIZE {
            bytes_truncate(&mut self.data, sz - TIMESTAMP_SIZE)
        }
    }
}

impl PartialEq for Key {
    fn eq(&self, other: &Self) -> (r: bool) {
        same_key_in(self.as_slice(), other.as_slice())
    }
}

impl vstd::std_specs::cmp::PartialEqSpecImpl for Key {
    open spec fn obeys_eq_spec() -> bool {
        true
    }

    open spec fn eq_spec(&self, other: &Key) -> bool {
        spec_same_key(self@, other@)
    }
}

impl Eq for Key {}

impl PartialOrd for Key {
    fn partial_cmp(&self, other: &Self) -> (r: Option<Ordering>) {
        Some(compare_key_in(self.as_slice(), other.as_slice()))
    }
}

impl vstd::std_specs::cmp::PartialOrdSpecImpl for Key {
    open spec fn obeys_partial_cmp_spec() -> bool {
        true
    }

    open spec fn partial_cmp_spec(&self, other: &Key) -> Option<Ordering> {
        Some(spec_compare_key(self@, other@))
    }
}

/// A borrowed key: a view into key bytes with the same ordering and
/// equality semantics as [`Key`].
#[derive(Debug, Clone, Copy, Hash)]
pub struct KeyRef<'a> {
    data: &'a [u8],
}

impl<'a> View for KeyRef<'a> {
    type V = Seq<u8>;

    closed spec fn view(&self) -> Seq<u8> {
        self.data@
    }
}

impl<'a> KeyRef<'a> {
    /// Returns a view of the given key bytes.
    pub fn new(data: &'a [u8]) -> (r: Self)
        ensures
            r@ == data@,
    {
        KeyRef { data }
    }

    /// Copies this view into a new owned key.
    pub fn to_key(&self) -> (r: Key)
        ensures
            r@ == self@,
    {
        Key::copy_from_slice(self.data)
    }

    /// Returns the number of bytes contained in this key.
    pub fn len(&self) -> (r: usize)
        ensures
            r == self@.len(),
    {
        self.data.len()
    }

    /// Returns true if the key has a length of 0.
    pub fn is_empty(&self) -> (r: bool)
        ensures
            r == (self@.len() == 0),
    {
        self.data.len() == 0
    }

    /// Returns the underlying bytes.
    pub fn as_slice(&self) -> (r: &'a [u8])
        ensures
            r@ == self@,
    {
        self.data
    }
}

impl<'a> PartialEq for KeyRef<'a> {
    fn eq(&self, other: &Self) -> (r: bool) {
        same_key_in(self.data, other.data)
    }
}

impl<'a> vstd::std_specs::cmp::PartialEqSpecImpl for KeyRef<'a> {
    open spec fn obeys_eq_spec() -> bool {
        true
    }

    open spec fn eq_spec(&self, other: &KeyRef<'a>) -> bool {
        spec_same_key(self@, other@)
    }
}

impl<'a> Eq for KeyRef<'a> {}

impl<'a> PartialOrd for KeyRef<'a> {
    fn partial_cmp(&self, other: &Self) -> (r: Option<Ordering>) {
        Some(compare_key_in(self.data, other.data))
    }
}

impl<'a> vstd::std_specs::cmp::PartialOrdSpecImpl for KeyRef<'a> {
    open spec fn obeys_partial_cmp_spec() -> bool {
        true
    }

    open spec fn partial_cmp_spec(&self, other: &KeyRef<'a>) -> Option<Ordering> {
        Some(spec_compare_key(self@, other@))
    }
}

/// Extensions for any type that can stand for key bytes.
pub trait KeyExt: Sized {
    /// The key bytes this value stands for.
    spec fn spec_bytes(&self) -> Seq<u8>;

    /// Returns the underlying slice of key bytes (with timestamp suffix).
    fn as_bytes(&self) -> (r: &[u8])
        ensures
            r@ == self.spec_bytes(),
    ;

    /// Returns a borrowed key view.
    fn as_key_ref(&self) -> (r: KeyRef<'_>)
        ensures
            r@ == self.spec_bytes(),
    {
        KeyRef::new(self.as_bytes())
    }

    /// Parses the user-key part from the key bytes.
    fn parse_key(&self) -> (r: &[u8])
        ensures
            r@ == spec_parse_key(self.spec_bytes()),
    {
        parse_key_in(self.as_bytes())
    }

    /// Parses the timestamp from the key bytes; 0 when the key carries none.
    fn parse_timestamp(&self) -> (r: u64)
        ensures
            r == spec_timestamp(self.spec_bytes()),
    {
        parse_timestamp_in(self.as_bytes())
    }
}

impl KeyExt for Key {
    open spec fn spec_bytes(&self) -> Seq<u8> {
        self@
    }

    fn as_bytes(&self) -> (r: &[u8]) {
        self.as_slice()
    }
}

impl<'a> KeyExt for KeyRef<'a> {
    open spec fn spec_bytes(&self) -> Seq<u8> {
        self@
    }

    fn as_bytes(&self) -> (r: &[u8]) {
        self.data
    }
}

impl KeyExt for Vec<u8> {
    open spec fn spec_bytes(&self) -> Seq<u8> {
        self@
    }

    fn as_bytes(&self) -> (r: &[u8]) {
        self.as_slice()
    }
}

impl KeyExt for bytes::Bytes {
    open spec fn spec_bytes(&self) -> Seq<u8> {
        bytes_view(*self)
    }

    fn as_bytes(&self) -> (r: &[u8]) {
        bytes_as_slice(self)
    }
}

/// Compares two keys: the stripped keys lexicographically, and the
/// timestamp suffixes (newest first) when the stripped keys are the same.
pub fn compare_key<A: KeyExt, B: KeyExt>(a: A, b: B) -> (r: Ordering)
    ensures
        r == spec_compare_key(a.spec_bytes(), b.spec_bytes()),
{
    compare_key_in(a.as_bytes(), b.as_bytes())
}

/// Checks for key equality ignoring the version timestamp.
pub fn same_key<A: KeyExt, B: KeyExt>(a: A, b: B) -> (r: bool)
    ensures
        r == spec_same_key(a.spec_bytes(), b.spec_bytes()),
{
    same_key_in(a.as_bytes(), b.as_bytes())
}

/// Does the user key of `a` begin with the user key of `b`?
pub fn has_prefix<A: KeyExt, B: KeyExt>(a: &A, b: B) -> (r: bool)
    ensures
        r == is_prefix_of(spec_parse_key(b.spec_bytes()), spec_parse_key(a.spec_bytes())),
{
    starts_with(parse_key_in(a.as_bytes()), parse_key_in(b.as_bytes()))
}

/// Does the user key of `a` end with the user key of `b`?
pub fn has_suffix<A: KeyExt, B: KeyExt>(a: &A, b: B) -> (r: bool)
    ensures
        r == is_suffix_of(spec_parse_key(b.spec_bytes()), spec_parse_key(a.spec_bytes())),
{
    ends_with(parse_key_in(a.as_bytes()), parse_key_in(b.as_bytes()))
}

/// The longest prefix the two user keys share, as a slice of `a`'s.
pub fn longest_prefix<'a, A: KeyExt, B: KeyExt>(a: &'a A, b: B) -> (r: &'a [u8])
    ensures
        r@ == spec_parse_key(a.spec_bytes()).subrange(
            0,
            lcp_len(spec_parse_key(a.spec_bytes()), spec_parse_key(b.spec_bytes())) as int,
        ),
{
    let k1 = parse_key_in(a.as_bytes());
    let ob = b.as_bytes();
    let k2 = parse_key_in(ob);
    let n = common_prefix_len(k1, k2);
    &k1[0..n]
}

/// The longest suffix the two user keys share, as a slice of `a`'s.
pub fn longest_suffix<'a, A: KeyExt, B: KeyExt>(a: &'a A, b: B) -> (r: &'a [u8])
    ensures
        r@ == spec_parse_key(a.spec_bytes()).subrange(
            spec_parse_key(a.spec_bytes()).len() - lcs_len(
                spec_parse_key(a.spec_bytes()),
                spec_parse_key(b.spec_bytes()),
            ),
            spec_parse_key(a.spec_bytes()).len() as int,
        ),
{
    let k1 = parse_key_in(a.as_bytes());
    let ob = b.as_bytes();
    let k2 = parse_key_in(ob);
    let n = common_suffix_len(k1, k2);
    let k1_len = k1.len();
    &k1[k1_len - n..k1_len]
}

/// Keys with the same user-key bytes sort newest timestamp first: the key
/// carrying the larger timestamp compares `Less`.
pub proof fn lemma_newer_timestamp_sorts_first(k: Seq<u8>, t1: u64, t2: u64)
    requires
        t1 > t2,
    ensures
        spec_compare_key(spec_with_timestamp(k, t1), spec_with_timestamp(k, t2)) == Ordering::Less,
{
    let m1 = (u64::MAX - t1) as u64;
    let m2 = (u64::MAX - t2) as u64;
    let a = spec_with_timestamp(k, t1);
    let b = spec_with_timestamp(k, t2);
    lemma_be_bytes_n_len(m1 as nat, 8);
    lemma_be_bytes_n_len(m2 as nat, 8);
    assert(a.len() == k.len() + 8);
    assert(b.len() == k.len() + 8);
    assert(spec_strip_timestamp(a) =~= k);
    assert(spec_strip_timestamp(b) =~= k);
    lemma_lex_eq(k, k);
    assert(spec_timestamp_suffix(a) =~= u64_be_bytes(m1));
    assert(spec_timestamp_suffix(b) =~= u64_be_bytes(m2));
    lemma_pow256_vals();
    lemma_be_bytes_mono(m1 as nat, m2 as nat, 8);
}

/// Attaching timestamps never changes key identity: two keys built from the
/// same user-key bytes are the same key, whatever their timestamps.
pub proof fn lemma_same_key_ignores_timestamp(k: Seq<u8>, t1: u64, t2: u64)
    ensures
        spec_same_key(spec_with_timestamp(k, t1), spec_with_timestamp(k, t2)),
{
    let a = spec_with_timestamp(k, t1);
    let b = spec_with_timestamp(k, t2);
    lemma_be_bytes_n_len((u64::MAX - t1) as nat, 8);
    lemma_be_bytes_n_len((u64::MAX - t2) as nat, 8);
    assert(spec_strip_timestamp(a) =~= k);
    assert(spec_strip_timestamp(b) =~= k);
}

/// Keys built from different user-key bytes of equal length are never the
/// same key, whatever their timestamps.
pub proof fn lemma_same_key_differs(k1: Seq<u8>, k2: Seq<u8>, t1: u64, t2: u64)
    requires
        k1.len() == k2.len(),
        k1 != k2,
    ensures
        !spec_same_key(spec_with_timestamp(k1, t1), spec_with_timestamp(k2, t2)),
{
    let a = spec_with_timestamp(k1, t1);
    let b = spec_with_timestamp(k2, t2);
    lemma_be_bytes_n_len((u64::MAX - t1) as nat, 8);
    lemma_be_bytes_n_len((u64::MAX - t2) as nat, 8);
    assert(spec_strip_timestamp(a) =~= k1);
    assert(spec_strip_timestamp(b) =~= k2);
}

/// The longest common prefix of a key with itself is its whole user key,
/// and every key has its own user key as a prefix.
pub proof fn lemma_longest_common_prefix_self(a: Seq<u8>)
    ensures
        lcp_len(spec_parse_key(a), spec_parse_key(a)) == spec_parse_key(a).len(),
        spec_parse_key(a).subrange(0, spec_parse_key(a).len() as int) == spec_parse_key(a),
        is_prefix_of(spec_parse_key(spec_parse_key(a)), spec_parse_key(a)),
{
    let p = spec_parse_key(a);
    lemma_lcp_self(p);
    assert(p.subrange(0, p.len() as int) =~= p);
    let q = spec_parse_key(p);
    if p.len() <= 8 {
        assert(q == p);
        assert(p.subrange(0, p.len() as int) =~= p);
    } else {
        assert(q == p.subrange(0, p.len() - 8));
        assert(p.subrange(0, q.len() as int) =~= q);
    }
}

/// The timestamp parsed back from `with_timestamp` is the one given,
/// whenever the user key is not empty.
pub proof fn lemma_timestamp_round_trip(k: Seq<u8>, ts: u64)
    requires
        k.len() >= 1,
    ensures
        spec_timestamp(spec_with_timestamp(k, ts)) == ts,
{
    let m = (u64::MAX - ts) as u64;
    let a = spec_with_timestamp(k, ts);
    lemma_be_bytes_n_len(m as nat, 8);
    assert(a.len() == k.len() + 8);
    assert(a.subrange(a.len() - 8, a.len() as int) =~= u64_be_bytes(m));
    lemma_pow256_vals();
    lemma_be_val_of_be_bytes(m as nat, 8);
}

} // verus!
