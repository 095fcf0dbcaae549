//! Lexicographic comparison and prefix/suffix analysis of byte slices.
//!
//! These are the verified primitives that key ordering and the prefix/suffix
//! utilities are built from.

use core::cmp::Ordering;
use vstd::prelude::*;

verus! {

/// Lexicographic order on byte sequences: the first differing position
/// decides; a proper prefix sorts before its extensions.
pub open spec fn lex_cmp(a: Seq<u8>, b: Seq<u8>) -> Ordering
    decreases a.len(),
{
    if a.len() == 0 && b.len() == 0 {
        Ordering::Equal
    } else if a.len() == 0 {
        Ordering::Less
    } else if b.len() == 0 {
        Ordering::Greater
    } else if a[0] < b[0] {
        Ordering::Less
    } else if a[0] > b[0] {
        Ordering::Greater
    } else {
        lex_cmp(a.drop_first(), b.drop_first())
    }
}

/// `p` occurs at the start of `s`.
pub open spec fn is_prefix_of(p: Seq<u8>, s: Seq<u8>) -> bool {
    p.len() <= s.len() && s.subrange(0, p.len() as int) == p
}

/// `p` occurs at the end of `s`.
pub open spec fn is_suffix_of(p: Seq<u8>, s: Seq<u8>) -> bool {
    p.len() <= s.len() && s.subrange(s.len() - p.len(), s.len() as int) == p
}

/// Length of the longest common prefix of `a` and `b`.
pub open spec fn lcp_len(a: Seq<u8>, b: Seq<u8>) -> nat
    decreases a.len(),
{
    if a.len() == 0 || b.len() == 0 || a[0] != b[0] {
        0
    } else {
        1 + lcp_len(a.drop_first(), b.drop_first())
    }
}

/// Length of the longest common suffix of `a` and `b`.
pub open spec fn lcs_len(a: Seq<u8>, b: Seq<u8>) -> nat
    decreases a.len(),
{
    if a.len() == 0 || b.len() == 0 || a.last() != b.last() {
        0
    } else {
        1 + lcs_len(a.drop_last(), b.drop_last())
    }
}

/// Two sequences are lexicographically `Equal` exactly when they are equal.
pub proof fn lemma_lex_eq(a: Seq<u8>, b: Seq<u8>)
    ensures
        lex_cmp(a, b) == Ordering::Equal <==> a == b,
    decreases a.len(),
{
    if a.len() == 0 && b.len() == 0 {
        assert(a =~= b);
    } else if a.len() == 0 || b.len() == 0 {
        assert(a != b);
    } else if a[0] == b[0] {
        lemma_lex_eq(a.drop_first(), b.drop_first());
        if a.drop_first() == b.drop_first() {
            assert forall|i: int| 0 <= i < a.len() implies a[i] == b[i] by {
                if i >= 1 {
                    assert(a[i] == a.drop_first()[i - 1]);
                    assert(b[i] == b.drop_first()[i - 1]);
                }
            }
            assert(a =~= b);
        }
    } else {
        assert(a != b);
    }
}

/// Appending one element to equal-length sequences compares the sequences
/// first and the appended elements on a tie.
pub proof fn lemma_lex_push(a: Seq<u8>, b: Seq<u8>, x: u8, y: u8)
    requires
        a.len() == b.len(),
    ensures
        lex_cmp(a.push(x), b.push(y)) == if lex_cmp(a, b) != Ordering::Equal {
            lex_cmp(a, b)
        } else if x < y {
            Ordering::Less
        } else if x > y {
            Ordering::Greater
        } else {
            Ordering::Equal
        },
    decreases a.len(),
{
    if a.len() == 0 {
        assert(a.push(x)[0] == x);
        assert(b.push(y)[0] == y);
        assert(a.push(x).drop_first() =~= Seq::<u8>::empty());
        assert(b.push(y).drop_first() =~= Seq::<u8>::empty());
    } else {
        assert(a.push(x)[0] == a[0]);
        assert(b.push(y)[0] == b[0]);
        if a[0] == b[0] {
            assert(a.push(x).drop_first() =~= a.drop_first().push(x));
            assert(b.push(y).drop_first() =~= b.drop_first().push(y));
            lemma_lex_push(a.drop_first(), b.drop_first(), x, y);
        }
    }
}

/// Characterizes `lcp_len` by its first mismatch.
pub proof fn lemma_lcp_at(a: Seq<u8>, b: Seq<u8>, n: int)
    requires
        0 <= n <= a.len(),
        n <= b.len(),
        forall|i: int| 0 <= i < n ==> a[i] == b[i],
        n < a.len() && n < b.len() ==> a[n] != b[n],
    ensures
        lcp_len(a, b) == n,
    decreases n,
{
    if n == 0 {
    } else {
        assert(a[0] == b[0]);
        assert(forall|i: int|
            0 <= i < n - 1 ==> a.drop_first()[i] == a[i + 1] && b.drop_first()[i] == b[i + 1]);
        lemma_lcp_at(a.drop_first(), b.drop_first(), n - 1);
    }
}

/// Characterizes `lcs_len` by its first mismatch from the end.
pub proof fn lemma_lcs_at(a: Seq<u8>, b: Seq<u8>, n: int)
    requires
        0 <= n <= a.len(),
        n <= b.len(),
        forall|j: int| a.len() - n <= j < a.len() ==> #[trigger] a[j] == b[j + b.len() - a.len()],
        n < a.len() && n < b.len() ==> a[a.len() - 1 - n] != b[b.len() - 1 - n],
    ensures
        lcs_len(a, b) == n,
    decreases n,
{
    if n == 0 {
    } else {
        assert(a.last() == b.last()) by {
            assert(a[a.len() - 1] == b[a.len() - 1 + b.len() - a.len()]);
        }
        let a1 = a.drop_last();
        let b1 = b.drop_last();
        assert(forall|j: int|
            a1.len() - (n - 1) <= j < a1.len() ==> #[trigger] a1[j] == b1[j + b1.len()
                - a1.len()]) by {
            assert(forall|j: int| 0 <= j < a1.len() ==> #[trigger] a1[j] == a[j]);
            assert(forall|j: int| 0 <= j < b1.len() ==> #[trigger] b1[j] == b[j]);
        }
        lemma_lcs_at(a1, b1, n - 1);
    }
}

/// The longest common prefix of a sequence with itself is the whole sequence.
pub proof fn lemma_lcp_self(a: Seq<u8>)
    ensures
        lcp_len(a, a) == a.len(),
{
    lemma_lcp_at(a, a, a.len() as int);
}

/// Compares two byte slices lexicographically.
pub fn compare_bytes(a: &[u8], b: &[u8]) -> (r: Ordering)
    ensures
        r == lex_cmp(a@, b@),
{
    let a_len = a.len();
    let b_len = b.len();
    let n = if a_len < b_len {
        a_len
    } else {
        b_len
    };
    let mut i: usize = 0;
    proof {
        assert(a@.skip(0) =~= a@);
        assert(b@.skip(0) =~= b@);
    }
    while i < n
        invariant
            0 <= i <= n,
            n == if a@.len() < b@.len() {
                a@.len()
            } else {
                b@.len()
            },
            forall|j: int| 0 <= j < i ==> a@[j] == b@[j],
            lex_cmp(a@, b@) == lex_cmp(a@.skip(i as int), b@.skip(i as int)),
        decreases n - i,
    {
        let x = a[i];
        let y = b[i];
        if x < y {
            proof {
                assert(a@.skip(i as int)[0] == x);
                assert(b@.skip(i as int)[0] == y);
            }
            return Ordering::Less;
        }
        if x > y {
            proof {
                assert(a@.skip(i as int)[0] == x);
                assert(b@.skip(i as int)[0] == y);
            }
            return Ordering::Greater;
        }
        proof {
            let sa = a@.skip(i as int);
            let sb = b@.skip(i as int);
            assert(sa[0] == x && sb[0] == y);
            assert(sa.drop_first() =~= a@.skip(i + 1));
            assert(sb.drop_first() =~= b@.skip(i + 1));
        }
        i += 1;
    }
    proof {
        let sa = a@.skip(i as int);
        let sb = b@.skip(i as int);
        if a@.len() < b@.len() {
            assert(sa.len() == 0);
            assert(sb.len() > 0);
        } else if a@.len() > b@.len() {
            assert(sb.len() == 0);
            assert(sa.len() > 0);
        } else {
            assert(sa.len() == 0 && sb.len() == 0);
        }
    }
    if a_len < b_len {
        Ordering::Less
    } else if a_len > b_len {
        Ordering::Greater
    } else {
        Ordering::Equal
    }
}

/// Byte-for-byte equality of two slices.
pub fn slice_eq(a: &[u8], b: &[u8]) -> (r: bool)
    ensures
        r <==> a@ == b@,
{
    let c = compare_bytes(a, b);
    proof {
        lemma_lex_eq(a@, b@);
    }
    match c {
        Ordering::Equal => true,
        _ => false,
    }
}

/// Does `src` begin with `prefix`?
pub fn starts_with(src: &[u8], prefix: &[u8]) -> (r: bool)
    ensures
        r <==> is_prefix_of(prefix@, src@),
{
    let pl = prefix.len();
    if src.len() < pl {
        return false;
    }
    slice_eq(&src[0..pl], prefix)
}

/// Does `src` end with `suffix`?
pub fn ends_with(src: &[u8], suffix: &[u8]) -> (r: bool)
    ensures
        r <==> is_suffix_of(suffix@, src@),
{
    let sl = suffix.len();
    if src.len() < sl {
        return false;
    }
    let start = src.len() - sl;
    slice_eq(&src[start..src.len()], suffix)
}

/// Length of the longest common prefix of two slices.
pub fn common_prefix_len(a: &[u8], b: &[u8]) -> (r: usize)
    ensures
        r == lcp_len(a@, b@),
        r <= a@.len() && r <= b@.len(),
{
    let a_len = a.len();
    let b_len = b.len();
    let n = if a_len < b_len {
        a_len
    } else {
        b_len
    };
    let mut i: usize = 0;
    while i < n
        invariant
            0 <= i <= n,
            n <= a@.len() && n <= b@.len(),
            n == if a@.len() < b@.len() {
                a@.len()
            } else {
                b@.len()
            },
            forall|j: int| 0 <= j < i ==> a@[j] == b@[j],
        decreases n - i,
    {
        if a[i] != b[i] {
            proof {
                lemma_lcp_at(a@, b@, i as int);
            }
            return i;
        }
        i += 1;
    }
    proof {
        lemma_lcp_at(a@, b@, n as int);
    }
    n
}

/// Length of the longest common suffix of two slices.
pub fn common_suffix_len(a: &[u8], b: &[u8]) -> (r: usize)
    ensures
        r == lcs_len(a@, b@),
        r <= a@.len() && r <= b@.len(),
{
    let a_len = a.len();
    let b_len = b.len();
    let n = if a_len < b_len {
        a_len
    } else {
        b_len
    };
    let mut i: usize = 0;
    while i < n
        invariant
            0 <= i <= n,
            a_len == a@.len() && b_len == b@.len(),
            n <= a@.len() && n <= b@.len(),
            n == if a@.len() < b@.len() {
                a@.len()
            } else {
                b@.len()
            },
            forall|j: int|
                a@.len() - i <= j < a@.len() ==> #[trigger] a@[j] == b@[j + b@.len() - a@.len()],
        decreases n - i,
    {
        if a[a_len - 1 - i] != b[b_len - 1 - i] {
            proof {
                lemma_lcs_at(a@, b@, i as int);
            }
            return i;
        }
        i += 1;
    }
    proof {
        lemma_lcs_at(a@, b@, n as int);
    }
    n
}

} // verus!
