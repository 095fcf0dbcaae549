//! Unsigned varint (LEB128) and big-endian codecs for 64-bit integers.
//!
//! A varint stores 7 data bits per byte, low-order group first, with the top
//! bit of each byte marking continuation; a 64-bit value takes at most 10
//! bytes.  Big-endian bytes are used for the 8-byte key timestamp suffix.

use core::cmp::Ordering;
use vstd::arithmetic::div_mod::{
    lemma_div_decreases, lemma_div_is_ordered, lemma_fundamental_div_mod,
};
use vstd::arithmetic::power::{lemma_pow_increases, pow};
use vstd::prelude::*;

use crate::bytes_cmp::lex_cmp;
use crate::bytes_cmp::lemma_lex_push;

verus! {

/// Largest number of bytes a varint-encoded 64-bit value can occupy.
pub const MAX_VARINT_LEN64: usize = 10;

/// The varint encoding of `x`: 7-bit groups, least significant first, with
/// the continuation bit set on every byte but the last.
pub open spec fn varint_enc(x: u64) -> Seq<u8>
    decreases x,
{
    if x < 0x80 {
        seq![x as u8]
    } else {
        seq![((x % 0x80) + 0x80) as u8] + varint_enc(x / 0x80)
    }
}

/// The value a byte sequence decodes to: groups accumulate from index 0
/// (least significant) until the first byte without the continuation bit.
pub open spec fn varint_val(s: Seq<u8>) -> nat
    decreases s.len(),
{
    if s.len() == 0 {
        0
    } else if s[0] < 0x80 {
        s[0] as nat
    } else {
        ((s[0] - 0x80) as nat) + 0x80 * varint_val(s.drop_first())
    }
}

/// Index of the first byte without the continuation bit, or `s.len()` if
/// every byte has it.
pub open spec fn first_term(s: Seq<u8>) -> int
    decreases s.len(),
{
    if s.len() == 0 {
        0
    } else if s[0] < 0x80 {
        0
    } else {
        1 + first_term(s.drop_first())
    }
}

/// The varint at the start of `s` terminates and its value fits in 64 bits.
pub open spec fn uvarint_ok(s: Seq<u8>) -> bool {
    let k = first_term(s);
    k < s.len() && (k <= 8 || (k == 9 && s[9] <= 1))
}

/// What decoding a varint from the start of `s` yields: `(value, n)` with
/// `n > 0` bytes consumed on success, `(0, 0)` when the data runs out before
/// a terminating byte, and `(0, usize::MAX - n)` (the bitwise complement of
/// `n`) when the value would exceed 64 bits after `n` bytes.
pub open spec fn spec_uvarint(s: Seq<u8>) -> (u64, usize) {
    let k = first_term(s);
    if k == s.len() {
        (0u64, 0usize)
    } else if k <= 8 || (k == 9 && s[9] <= 1) {
        (varint_val(s.subrange(0, k + 1)) as u64, (k + 1) as usize)
    } else {
        (0u64, (usize::MAX - (k + 1)) as usize)
    }
}

/// Core properties of the varint encoding, by induction on `x`.
pub proof fn lemma_varint_enc_props(x: u64)
    ensures
        varint_enc(x).len() >= 1,
        x < pow(0x80, varint_enc(x).len() as nat),
        varint_enc(x).len() > 1 ==> x >= pow(0x80, (varint_enc(x).len() - 1) as nat),
        forall|i: int| 0 <= i < varint_enc(x).len() - 1 ==> #[trigger] varint_enc(x)[i] >= 0x80,
        varint_enc(x)[varint_enc(x).len() - 1] < 0x80,
        varint_enc(x)[varint_enc(x).len() - 1] == x as int / pow(
            0x80,
            (varint_enc(x).len() - 1) as nat,
        ),
        varint_val(varint_enc(x)) == x,
    decreases x,
{
    reveal(pow);
    let e = varint_enc(x);
    if x < 0x80 {
        assert(e =~= seq![x as u8]);
        assert(pow(0x80, 1) == 0x80 * pow(0x80, 0));
        assert(x as int / pow(0x80, 0) == x as int / 1);
    } else {
        lemma_div_decreases(x as int, 0x80);
        lemma_varint_enc_props(x / 0x80);
        let e1 = varint_enc(x / 0x80);
        let b = ((x % 0x80) + 0x80) as u8;
        assert(e == seq![b] + e1);
        assert(e.len() == 1 + e1.len());
        assert(e[0] == b);
        assert forall|i: int| 0 <= i < e.len() - 1 implies #[trigger] e[i] >= 0x80 by {
            if i > 0 {
                assert(e[i] == e1[i - 1]);
            }
        }
        assert(e[e.len() - 1] == e1[e1.len() - 1]);
        // the last byte is x / 0x80^(len-1)
        let n1 = (e1.len() - 1) as nat;
        assert(e1[e1.len() - 1] == (x / 0x80) as int / pow(0x80, n1));
        assert(pow(0x80, n1 + 1) == 0x80 * pow(0x80, n1));
        vstd::arithmetic::power::lemma_pow_positive(0x80, n1);
        vstd::arithmetic::div_mod::lemma_div_denominator(x as int, 0x80, pow(0x80, n1));
        assert((x / 0x80) as int == x as int / 0x80);
        assert(e[e.len() - 1] == x as int / pow(0x80, (e.len() - 1) as nat));
        // bounds
        lemma_fundamental_div_mod(x as int, 0x80);
        assert(x == 0x80 * (x as int / 0x80) + x as int % 0x80);
        let q = (x / 0x80) as int;
        assert(q < pow(0x80, e1.len() as nat));
        assert(x as int <= 0x80 * q + 0x7f);
        assert(0x80 * q <= 0x80 * (pow(0x80, e1.len() as nat) - 1)) by (nonlinear_arith)
            requires
                q < pow(0x80, e1.len() as nat),
        ;
        assert(pow(0x80, e.len() as nat) == 0x80 * pow(0x80, e1.len() as nat));
        assert(x < pow(0x80, e.len() as nat));
        if e.len() > 1 {
            if e1.len() > 1 {
                assert(q >= pow(0x80, (e1.len() - 1) as nat));
                assert(0x80 * q >= 0x80 * pow(0x80, (e1.len() - 1) as nat)) by (nonlinear_arith)
                    requires
                        q >= pow(0x80, (e1.len() - 1) as nat),
                ;
                assert(pow(0x80, e1.len() as nat) == 0x80 * pow(0x80, (e1.len() - 1) as nat));
                assert(x >= pow(0x80, (e.len() - 1) as nat));
            } else {
                assert(e1.len() == 1);
                assert(pow(0x80, 1) == 0x80 * pow(0x80, 0));
                assert(x >= pow(0x80, (e.len() - 1) as nat));
            }
        }
        // value round trip
        assert(e.drop_first() =~= e1);
        assert(varint_val(e) == ((b - 0x80) as nat) + 0x80 * varint_val(e1));
        assert(varint_val(e) == x);
    }
}

/// Concrete values of the powers of 0x80 the proofs need, by unfolding.
pub proof fn lemma_pow128_vals()
    ensures
        pow(0x80, 8) == 0x100000000000000,
        pow(0x80, 9) == 0x8000000000000000,
        pow(0x80, 10) == 0x400000000000000000,
{
    reveal(pow);
    assert(pow(0x80, 0) == 1);
    assert(pow(0x80, 1) == 0x80 * pow(0x80, 0));
    assert(pow(0x80, 2) == 0x80 * pow(0x80, 1));
    assert(pow(0x80, 3) == 0x80 * pow(0x80, 2));
    assert(pow(0x80, 4) == 0x80 * pow(0x80, 3));
    assert(pow(0x80, 5) == 0x80 * pow(0x80, 4));
    assert(pow(0x80, 6) == 0x80 * pow(0x80, 5));
    assert(pow(0x80, 7) == 0x80 * pow(0x80, 6));
    assert(pow(0x80, 8) == 0x80 * pow(0x80, 7));
    assert(pow(0x80, 9) == 0x80 * pow(0x80, 8));
    assert(pow(0x80, 10) == 0x80 * pow(0x80, 9));
}

/// Concrete values of the powers of 256 the proofs need, by unfolding.
pub proof fn lemma_pow256_vals()
    ensures
        pow(256, 8) == 0x10000000000000000,
{
    reveal(pow);
    assert(pow(256, 0) == 1);
    assert(pow(256, 1) == 256 * pow(256, 0));
    assert(pow(256, 2) == 256 * pow(256, 1));
    assert(pow(256, 3) == 256 * pow(256, 2));
    assert(pow(256, 4) == 256 * pow(256, 3));
    assert(pow(256, 5) == 256 * pow(256, 4));
    assert(pow(256, 6) == 256 * pow(256, 5));
    assert(pow(256, 7) == 256 * pow(256, 6));
    assert(pow(256, 8) == 256 * pow(256, 7));
}

/// The varint encoding takes between 1 and 10 bytes; a 10-byte encoding has
/// 1 or 0 as its final byte; the final byte never carries the continuation
/// bit, and every earlier byte does; decoding recovers `x`.
pub proof fn lemma_varint_enc_shape(x: u64)
    ensures
        1 <= varint_enc(x).len() <= 10,
        forall|i: int| 0 <= i < varint_enc(x).len() - 1 ==> #[trigger] varint_enc(x)[i] >= 0x80,
        varint_enc(x)[varint_enc(x).len() - 1] < 0x80,
        varint_enc(x).len() == 10 ==> varint_enc(x)[9] <= 1,
        varint_val(varint_enc(x)) == x,
{
    lemma_varint_enc_props(x);
    lemma_pow128_vals();
    let e = varint_enc(x);
    if e.len() > 10 {
        lemma_pow_increases(0x80, 10, (e.len() - 1) as nat);
        assert(false);
    }
    if e.len() == 10 {
        vstd::arithmetic::div_mod::lemma_multiply_divide_lt(
            x as int,
            0x8000000000000000,
            2,
        );
    }
}

/// A terminated group sequence is bounded by its final (most significant)
/// byte: `varint_val(s) <= 0x80^(n-1) * s[n-1] + 0x80^(n-1) - 1`.
pub proof fn lemma_varint_val_bound(s: Seq<u8>)
    requires
        s.len() >= 1,
        forall|i: int| 0 <= i < s.len() - 1 ==> #[trigger] s[i] >= 0x80,
        s[s.len() - 1] < 0x80,
    ensures
        varint_val(s) <= pow(0x80, (s.len() - 1) as nat) * s[s.len() - 1] + pow(
            0x80,
            (s.len() - 1) as nat,
        ) - 1,
    decreases s.len(),
{
    reveal(pow);
    if s.len() == 1 {
        assert(pow(0x80, 0) * s[0] + pow(0x80, 0) - 1 == s[0]);
    } else {
        let t = s.drop_first();
        assert(forall|i: int| 0 <= i < t.len() - 1 ==> #[trigger] t[i] >= 0x80);
        assert(t[t.len() - 1] == s[s.len() - 1]);
        lemma_varint_val_bound(t);
        let p = pow(0x80, (t.len() - 1) as nat);
        let last = s[s.len() - 1] as int;
        vstd::arithmetic::power::lemma_pow_positive(0x80, (t.len() - 1) as nat);
        assert(s[0] >= 0x80);
        assert(varint_val(s) == ((s[0] - 0x80) as nat) + 0x80 * varint_val(t));
        assert(varint_val(t) <= p * last + p - 1);
        assert(0x80 * varint_val(t) <= 0x80 * (p * last + p - 1)) by (nonlinear_arith)
            requires
                varint_val(t) <= p * last + p - 1,
        ;
        assert(0x80 * (p * last + p - 1) == (0x80 * p) * last + 0x80 * p - 0x80)
            by (nonlinear_arith);
        assert(pow(0x80, (s.len() - 1) as nat) == 0x80 * p);
        assert(varint_val(s) <= 0x7f + (0x80 * p) * last + 0x80 * p - 0x80);
    }
}

/// A terminated group sequence of at most 10 bytes whose tenth byte, if any,
/// is at most 1 decodes to a value below 2^64.
pub proof fn lemma_varint_val_fits(s: Seq<u8>)
    requires
        s.len() >= 1,
        forall|i: int| 0 <= i < s.len() - 1 ==> #[trigger] s[i] >= 0x80,
        s[s.len() - 1] < 0x80,
        s.len() <= 10,
        s.len() == 10 ==> s[9] <= 1,
    ensures
        varint_val(s) < 0x10000000000000000,
{
    lemma_varint_val_bound(s);
    let n1 = (s.len() - 1) as nat;
    let p = pow(0x80, n1);
    let last = s[s.len() - 1] as int;
    vstd::arithmetic::power::lemma_pow_positive(0x80, n1);
    lemma_pow128_vals();
    if s.len() <= 9 {
        lemma_pow_increases(0x80, n1, 8);
        assert(p <= 0x100000000000000);
        assert(last <= 0x7f);
        assert(p * last <= 0x100000000000000 * 0x7f) by (nonlinear_arith)
            requires
                0 < p <= 0x100000000000000,
                0 <= last <= 0x7f,
        ;
    } else {
        assert(s.len() == 10);
        assert(last <= 1);
        assert(p * last <= p) by (nonlinear_arith)
            requires
                0 < p,
                0 <= last <= 1,
        ;
    }
}

/// `first_term` stays within the sequence.
pub proof fn lemma_first_term_bounds(s: Seq<u8>)
    ensures
        0 <= first_term(s) <= s.len(),
    decreases s.len(),
{
    if s.len() > 0 && s[0] >= 0x80 {
        lemma_first_term_bounds(s.drop_first());
    }
}

/// `first_term` is characterized by its defining property.
pub proof fn lemma_first_term_is(s: Seq<u8>, i: int)
    requires
        0 <= i <= s.len(),
        forall|j: int| 0 <= j < i ==> #[trigger] s[j] >= 0x80,
        i < s.len() ==> s[i] < 0x80,
    ensures
        first_term(s) == i,
    decreases i,
{
    if i == 0 {
    } else {
        assert(s[0] >= 0x80);
        let t = s.drop_first();
        assert(forall|j: int| 0 <= j < i - 1 ==> #[trigger] t[j] == s[j + 1]);
        lemma_first_term_is(t, i - 1);
    }
}

/// Decoding a buffer that begins with `varint_enc(x)` succeeds, yields `x`,
/// and consumes exactly the encoding, whatever follows it.
pub proof fn lemma_uvarint_enc(x: u64, tail: Seq<u8>)
    ensures
        spec_uvarint(varint_enc(x) + tail) == (x, varint_enc(x).len() as usize),
        uvarint_ok(varint_enc(x) + tail),
{
    lemma_varint_enc_shape(x);
    let e = varint_enc(x);
    let s = e + tail;
    let k = e.len() - 1;
    assert(forall|j: int| 0 <= j < e.len() ==> #[trigger] s[j] == e[j]);
    lemma_first_term_is(s, k);
    assert(s.subrange(0, k + 1) =~= e);
    if k == 9 {
        assert(s[9] == e[9] <= 1);
    }
    assert(varint_val(s.subrange(0, k + 1)) == x);
}

/// Decoding the varint encoding of any 64-bit value succeeds, yields the
/// value back, and consumes exactly the encoding, which is at most 10 bytes.
pub proof fn lemma_varint_round_trip(x: u64)
    ensures
        spec_uvarint(varint_enc(x)) == (x, varint_enc(x).len() as usize),
        1 <= varint_enc(x).len() <= 10,
{
    lemma_varint_enc_shape(x);
    lemma_uvarint_enc(x, Seq::empty());
    assert(varint_enc(x) + Seq::<u8>::empty() =~= varint_enc(x));
}

/// Number of bytes `varint_enc` takes for `x`.
pub fn size_variant(x: u64) -> (r: usize)
    ensures
        r == varint_enc(x).len(),
{
    proof {
        lemma_varint_enc_shape(x);
    }
    let mut v: u64 = x;
    let mut n: usize = 1;
    while v >= 0x80
        invariant
            n >= 1,
            varint_enc(x).len() == n + varint_enc(v).len() - 1,
            varint_enc(v).len() >= 1,
            varint_enc(x).len() <= 10,
        decreases v,
    {
        proof {
            lemma_div_decreases(v as int, 0x80);
            assert(varint_enc(v) == seq![((v % 0x80) + 0x80) as u8] + varint_enc(v / 0x80));
            lemma_varint_enc_shape(v / 0x80);
        }
        v = v / 0x80;
        n = n + 1;
    }
    proof {
        assert(varint_enc(v) =~= seq![v as u8]);
    }
    n
}

/// Appends the varint encoding of `x` to `vec`.
pub fn put_binary_uvarint_to_vec(vec: &mut Vec<u8>, x: u64)
    requires
        old(vec)@.len() + 10 <= usize::MAX,
    ensures
        final(vec)@ == old(vec)@ + varint_enc(x),
{
    let mut v: u64 = x;
    proof {
        assert(vec@ + varint_enc(v) == old(vec)@ + varint_enc(x));
    }
    while v >= 0x80
        invariant
            vec@ + varint_enc(v) == old(vec)@ + varint_enc(x),
        decreases v,
    {
        let b: u8 = ((v % 0x80) + 0x80) as u8;
        vec.push(b);
        proof {
            lemma_div_decreases(v as int, 0x80);
            assert(varint_enc(v) == seq![b] + varint_enc(v / 0x80));
            assert(vec@ + varint_enc(v / 0x80) =~= old(vec)@ + varint_enc(x));
        }
        v = v / 0x80;
    }
    let b: u8 = v as u8;
    vec.push(b);
    proof {
        assert(varint_enc(v) =~= seq![b]);
        assert(vec@ =~= old(vec)@ + varint_enc(x));
    }
}

/// The varint encoding of `x` in a fresh vector.
pub fn binary_uvarint_allocate(x: u64) -> (r: Vec<u8>)
    ensures
        r@ == varint_enc(x),
{
    let mut vec: Vec<u8> = Vec::with_capacity(MAX_VARINT_LEN64);
    put_binary_uvarint_to_vec(&mut vec, x);
    proof {
        assert(vec@ =~= varint_enc(x));
    }
    vec
}

/// Decodes the terminated groups `buf[start ..= k]`, least significant
/// first; `k` is the index of the terminating byte.
fn uvarint_value(buf: &[u8], start: usize, k: usize) -> (r: u64)
    requires
        start <= k < buf@.len(),
        forall|i: int| start <= i < k ==> #[trigger] buf@[i] >= 0x80,
        buf@[k as int] < 0x80,
        varint_val(buf@.subrange(start as int, k as int + 1)) < 0x10000000000000000,
    ensures
        r == varint_val(buf@.subrange(start as int, k as int + 1)),
    decreases k - start,
{
    let s = Ghost(buf@.subrange(start as int, k as int + 1));
    if start == k {
        let b = buf[start];
        proof {
            assert(s@ =~= seq![b]);
        }
        b as u64
    } else {
        proof {
            assert(s@[0] == buf@[start as int]);
            assert(s@.drop_first() =~= buf@.subrange(start as int + 1, k as int + 1));
            assert(varint_val(s@) == ((s@[0] - 0x80) as nat) + 0x80 * varint_val(
                s@.drop_first(),
            ));
        }
        let rest = uvarint_value(buf, start + 1, k);
        let g = buf[start] - 0x80;
        g as u64 + 0x80 * rest
    }
}

/// Decodes a varint from the start of `buf`.  Returns `(value, n)` with
/// `n > 0` bytes read on success; `(0, 0)` when the buffer ends before a
/// terminating byte; and `(0, !n)` (bitwise complement, i.e.
/// `usize::MAX - n`) when the value overflows 64 bits after `n` bytes.
pub fn binary_uvarint(buf: &[u8]) -> (r: (u64, usize))
    ensures
        r == spec_uvarint(buf@),
{
    let n = buf.len();
    let mut i: usize = 0;
    while i < n && buf[i] >= 0x80
        invariant
            0 <= i <= n,
            n == buf@.len(),
            forall|j: int| 0 <= j < i ==> #[trigger] buf@[j] >= 0x80,
        decreases n - i,
    {
        i = i + 1;
    }
    proof {
        lemma_first_term_is(buf@, i as int);
    }
    if i == n {
        return (0, 0);
    }
    if i <= 8 || (i == 9 && buf[9] <= 1) {
        proof {
            let s = buf@.subrange(0, i as int + 1);
            assert(s.len() == i + 1);
            assert(forall|j: int| 0 <= j < s.len() - 1 ==> #[trigger] s[j] == buf@[j]);
            assert(s[s.len() - 1] == buf@[i as int]);
            if i == 9 {
                assert(s[9] == buf@[9]);
            }
            lemma_varint_val_fits(s);
        }
        let v = uvarint_value(buf, 0, i);
        (v, i + 1)
    } else {
        (0, usize::MAX - (i + 1))
    }
}

/// Big-endian bytes of `x`, `n` bytes long, most significant byte first.
pub open spec fn be_bytes_n(x: nat, n: nat) -> Seq<u8>
    decreases n,
{
    if n == 0 {
        Seq::empty()
    } else {
        be_bytes_n(x / 256, (n - 1) as nat).push((x % 256) as u8)
    }
}

/// The 8 big-endian bytes of a 64-bit integer.
pub open spec fn u64_be_bytes(x: u64) -> Seq<u8> {
    be_bytes_n(x as nat, 8)
}

/// The value of a big-endian byte sequence.
pub open spec fn be_val(s: Seq<u8>) -> nat
    decreases s.len(),
{
    if s.len() == 0 {
        0
    } else {
        be_val(s.drop_last()) * 256 + s.last() as nat
    }
}

/// `be_bytes_n(x, n)` has length `n`.
pub proof fn lemma_be_bytes_n_len(x: nat, n: nat)
    ensures
        be_bytes_n(x, n).len() == n,
    decreases n,
{
    if n > 0 {
        lemma_be_bytes_n_len(x / 256, (n - 1) as nat);
    }
}

/// Reading back the big-endian bytes of `x < 256^n` recovers `x`.
pub proof fn lemma_be_val_of_be_bytes(x: nat, n: nat)
    requires
        x < pow(256, n),
    ensures
        be_val(be_bytes_n(x, n)) == x,
    decreases n,
{
    reveal(pow);
    if n == 0 {
        assert(pow(256, 0) == 1);
    } else {
        let q = x / 256;
        assert(pow(256, n) == 256 * pow(256, (n - 1) as nat));
        vstd::arithmetic::power::lemma_pow_positive(256, (n - 1) as nat);
        lemma_fundamental_div_mod(x as int, 256);
        assert(q < pow(256, (n - 1) as nat)) by (nonlinear_arith)
            requires
                x < 256 * pow(256, (n - 1) as nat),
                0 < pow(256, (n - 1) as nat),
                q == x as int / 256,
                x == 256 * q + x as int % 256,
                0 <= x as int % 256 < 256,
        ;
        lemma_be_val_of_be_bytes(q, (n - 1) as nat);
        let s = be_bytes_n(x, n);
        lemma_be_bytes_n_len(x, n);
        assert(s.drop_last() =~= be_bytes_n(q, (n - 1) as nat));
        assert(s.last() == (x % 256) as u8);
        assert(be_val(s) == be_val(s.drop_last()) * 256 + s.last());
    }
}

/// Big-endian encoding is strictly monotonic under lexicographic order.
pub proof fn lemma_be_bytes_mono(x: nat, y: nat, n: nat)
    requires
        x < y,
        y < pow(256, n),
    ensures
        lex_cmp(be_bytes_n(x, n), be_bytes_n(y, n)) == Ordering::Less,
    decreases n,
{
    reveal(pow);
    if n == 0 {
        assert(pow(256, 0) == 1);
        assert(false);
    } else {
        let a = be_bytes_n(x / 256, (n - 1) as nat);
        let b = be_bytes_n(y / 256, (n - 1) as nat);
        lemma_be_bytes_n_len(x / 256, (n - 1) as nat);
        lemma_be_bytes_n_len(y / 256, (n - 1) as nat);
        lemma_lex_push(a, b, (x % 256) as u8, (y % 256) as u8);
        assert(pow(256, n) == 256 * pow(256, (n - 1) as nat));
        vstd::arithmetic::power::lemma_pow_positive(256, (n - 1) as nat);
        lemma_fundamental_div_mod(y as int, 256);
        assert(y / 256 < pow(256, (n - 1) as nat)) by (nonlinear_arith)
            requires
                y < 256 * pow(256, (n - 1) as nat),
                0 < pow(256, (n - 1) as nat),
                y == 256 * (y as int / 256) + y as int % 256,
                0 <= y as int % 256 < 256,
        ;
        lemma_div_is_ordered(x as int, y as int, 256);
        if x / 256 < y / 256 {
            lemma_be_bytes_mono(x / 256, y / 256, (n - 1) as nat);
        } else {
            assert(x / 256 == y / 256);
            crate::bytes_cmp::lemma_lex_eq(a, b);
            lemma_fundamental_div_mod(x as int, 256);
            assert(x % 256 < y % 256);
        }
    }
}

/// Reads a 64-bit big-endian integer from the first 8 bytes of `b`.
pub fn u64_big_endian(b: &[u8]) -> (r: u64)
    requires
        b@.len() >= 8,
    ensures
        r == be_val(b@.subrange(0, 8)),
{
    let r: u64 = (b[7] as u64) + (b[6] as u64) * 0x100 + (b[5] as u64) * 0x10000 + (b[4] as u64)
        * 0x1000000 + (b[3] as u64) * 0x100000000 + (b[2] as u64) * 0x10000000000 + (b[1] as u64)
        * 0x1000000000000 + (b[0] as u64) * 0x100000000000000;
    proof {
        let s = b@.subrange(0, 8);
        assert(s.drop_last() =~= b@.subrange(0, 7));
        assert(b@.subrange(0, 7).drop_last() =~= b@.subrange(0, 6));
        assert(b@.subrange(0, 6).drop_last() =~= b@.subrange(0, 5));
        assert(b@.subrange(0, 5).drop_last() =~= b@.subrange(0, 4));
        assert(b@.subrange(0, 4).drop_last() =~= b@.subrange(0, 3));
        assert(b@.subrange(0, 3).drop_last() =~= b@.subrange(0, 2));
        assert(b@.subrange(0, 2).drop_last() =~= b@.subrange(0, 1));
        assert(b@.subrange(0, 1).drop_last() =~= b@.subrange(0, 0));
        assert(b@.subrange(0, 0) =~= Seq::<u8>::empty());
        let v0 = b@[0] as nat;
        let v1 = b@[1] as nat;
        let v2 = b@[2] as nat;
        let v3 = b@[3] as nat;
        let v4 = b@[4] as nat;
        let v5 = b@[5] as nat;
        let v6 = b@[6] as nat;
        let v7 = b@[7] as nat;
        assert(be_val(b@.subrange(0, 0)) == 0);
        assert(be_val(b@.subrange(0, 1)) == v0);
        assert(be_val(b@.subrange(0, 2)) == v0 * 0x100 + v1);
        assert(be_val(b@.subrange(0, 3)) == v0 * 0x10000 + v1 * 0x100 + v2);
        assert(be_val(b@.subrange(0, 4)) == v0 * 0x1000000 + v1 * 0x10000 + v2 * 0x100 + v3);
        assert(be_val(b@.subrange(0, 5)) == v0 * 0x100000000 + v1 * 0x1000000 + v2 * 0x10000 + v3
            * 0x100 + v4);
        assert(be_val(b@.subrange(0, 6)) == v0 * 0x10000000000 + v1 * 0x100000000 + v2 * 0x1000000
            + v3 * 0x10000 + v4 * 0x100 + v5);
        assert(be_val(b@.subrange(0, 7)) == v0 * 0x1000000000000 + v1 * 0x10000000000 + v2
            * 0x100000000 + v3 * 0x1000000 + v4 * 0x10000 + v5 * 0x100 + v6);
        assert(be_val(b@.subrange(0, 8)) == v0 * 0x100000000000000 + v1 * 0x1000000000000 + v2
            * 0x10000000000 + v3 * 0x100000000 + v4 * 0x1000000 + v5 * 0x10000 + v6 * 0x100 + v7);
    }
    r
}

/// The 8 big-endian bytes of `x` in a fresh vector.
pub fn u64_to_be_vec(x: u64) -> (r: Vec<u8>)
    ensures
        r@ == u64_be_bytes(x),
        r@.len() == 8,
{
    let q1: u64 = x / 0x100;
    let q2: u64 = q1 / 0x100;
    let q3: u64 = q2 / 0x100;
    let q4: u64 = q3 / 0x100;
    let q5: u64 = q4 / 0x100;
    let q6: u64 = q5 / 0x100;
    let q7: u64 = q6 / 0x100;
    let mut r: Vec<u8> = Vec::with_capacity(8);
    r.push((q7 % 0x100) as u8);
    r.push((q6 % 0x100) as u8);
    r.push((q5 % 0x100) as u8);
    r.push((q4 % 0x100) as u8);
    r.push((q3 % 0x100) as u8);
    r.push((q2 % 0x100) as u8);
    r.push((q1 % 0x100) as u8);
    r.push((x % 0x100) as u8);
    proof {
        assert(be_bytes_n(x as nat, 8) == be_bytes_n(q1 as nat, 7).push((x % 0x100) as u8));
        assert(be_bytes_n(q1 as nat, 7) == be_bytes_n(q2 as nat, 6).push((q1 % 0x100) as u8));
        assert(be_bytes_n(q2 as nat, 6) == be_bytes_n(q3 as nat, 5).push((q2 % 0x100) as u8));
        assert(be_bytes_n(q3 as nat, 5) == be_bytes_n(q4 as nat, 4).push((q3 % 0x100) as u8));
        assert(be_bytes_n(q4 as nat, 4) == be_bytes_n(q5 as nat, 3).push((q4 % 0x100) as u8));
        assert(be_bytes_n(q5 as nat, 3) == be_bytes_n(q6 as nat, 2).push((q5 % 0x100) as u8));
        assert(be_bytes_n(q6 as nat, 2) == be_bytes_n(q7 as nat, 1).push((q6 % 0x100) as u8));
        assert(be_bytes_n(q7 as nat, 1) == be_bytes_n(q7 as nat / 256, 0).push(
            (q7 % 0x100) as u8,
        ));
        assert(be_bytes_n(q7 as nat / 256, 0) =~= Seq::<u8>::empty());
        assert(r@ =~= u64_be_bytes(x));
    }
    r
}

} // verus!
