//! Lexicographic order on strings, stated over their UTF-8 bytes.
//!
//! Column names and string statistics are ordered the way Rust orders
//! `str`: byte-wise lexicographically. The order is defined as a
//! recursive spec function over byte sequences, computed by an exec
//! comparison, and comes with the usual total-order lemmas that sorted
//! containers and min/max tracking need.

use vstd::prelude::*;
use vstd::string::StringSliceAdditionalSpecFns;

verus! {

/// Strict lexicographic order on byte sequences.
pub open spec fn bytes_lt(a: Seq<u8>, b: Seq<u8>) -> bool
    decreases a.len(),
{
    if b.len() == 0 {
        false
    } else if a.len() == 0 {
        true
    } else if a[0] != b[0] {
        a[0] < b[0]
    } else {
        bytes_lt(a.drop_first(), b.drop_first())
    }
}

/// Strict order on character sequences: lexicographic on their UTF-8
/// encodings.
pub open spec fn chars_lt(a: Seq<char>, b: Seq<char>) -> bool {
    bytes_lt(vstd::utf8::encode_utf8(a), vstd::utf8::encode_utf8(b))
}

/// Strict order on strings: lexicographic on their UTF-8 bytes.
pub open spec fn str_lt(a: &str, b: &str) -> bool {
    bytes_lt(a.spec_bytes(), b.spec_bytes())
}

/// The order is irreflexive.
pub proof fn lemma_bytes_lt_irreflexive(a: Seq<u8>)
    ensures
        !bytes_lt(a, a),
    decreases a.len(),
{
    if a.len() > 0 {
        lemma_bytes_lt_irreflexive(a.drop_first());
    }
}

/// Two sequences are equal or one is strictly below the other.
pub proof fn lemma_bytes_lt_trichotomy(a: Seq<u8>, b: Seq<u8>)
    ensures
        bytes_lt(a, b) || bytes_lt(b, a) || a =~= b,
    decreases a.len(),
{
    if a.len() > 0 && b.len() > 0 && a[0] == b[0] {
        lemma_bytes_lt_trichotomy(a.drop_first(), b.drop_first());
        if !bytes_lt(a, b) && !bytes_lt(b, a) {
            assert(a.drop_first() =~= b.drop_first());
            assert(a =~= seq![a[0]] + a.drop_first());
            assert(b =~= seq![b[0]] + b.drop_first());
        }
    }
}

/// The order is asymmetric.
pub proof fn lemma_bytes_lt_asymmetric(a: Seq<u8>, b: Seq<u8>)
    ensures
        !(bytes_lt(a, b) && bytes_lt(b, a)),
    decreases a.len(),
{
    if a.len() > 0 && b.len() > 0 && a[0] == b[0] {
        lemma_bytes_lt_asymmetric(a.drop_first(), b.drop_first());
    }
}

/// The order is transitive.
pub proof fn lemma_bytes_lt_transitive(a: Seq<u8>, b: Seq<u8>, c: Seq<u8>)
    ensures
        bytes_lt(a, b) && bytes_lt(b, c) ==> bytes_lt(a, c),
    decreases a.len(),
{
    if a.len() > 0 && b.len() > 0 && c.len() > 0 {
        lemma_bytes_lt_transitive(a.drop_first(), b.drop_first(), c.drop_first());
    }
}

/// Whether two strings are equal, by their UTF-8 bytes.
pub fn str_eq(a: &str, b: &str) -> (r: bool)
    ensures
        r == (a@ == b@),
{
    let ab = a.as_bytes();
    let bb = b.as_bytes();
    if ab.len() != bb.len() {
        proof {
            lemma_chars_of_bytes(a@, b@);
        }
        return false;
    }
    let n = ab.len();
    let mut i: usize = 0;
    while i < n
        invariant
            n == ab@.len() == bb@.len(),
            i <= n,
            ab@ == a.spec_bytes(),
            bb@ == b.spec_bytes(),
            forall|j: int| 0 <= j < i ==> ab@[j] == bb@[j],
        decreases n - i,
    {
        if ab[i] != bb[i] {
            proof {
                lemma_chars_of_bytes(a@, b@);
            }
            return false;
        }
        i = i + 1;
    }
    proof {
        assert(a.spec_bytes() =~= b.spec_bytes());
        lemma_chars_of_bytes(a@, b@);
    }
    true
}

/// Character sequences are equal exactly when their UTF-8 encodings
/// are.
pub proof fn lemma_chars_of_bytes(a: Seq<char>, b: Seq<char>)
    ensures
        (vstd::utf8::encode_utf8(a) == vstd::utf8::encode_utf8(b)) == (a == b),
{
    broadcast use vstd::utf8::encode_utf8_decode_utf8;

    if vstd::utf8::encode_utf8(a) == vstd::utf8::encode_utf8(b) {
        assert(vstd::utf8::decode_utf8(vstd::utf8::encode_utf8(a)) == a);
        assert(vstd::utf8::decode_utf8(vstd::utf8::encode_utf8(b)) == b);
    }
}

/// Compares two strings in the lexicographic byte order.
pub fn str_compare_lt(a: &str, b: &str) -> (r: bool)
    ensures
        r == str_lt(a, b),
{
    let ab = a.as_bytes();
    let bb = b.as_bytes();
    let alen = ab.len();
    let blen = bb.len();
    let n = if alen < blen {
        alen
    } else {
        blen
    };
    let mut i: usize = 0;
    while i < n
        invariant
            n <= ab@.len(),
            n <= bb@.len(),
            n == if ab@.len() < bb@.len() {
                ab@.len()
            } else {
                bb@.len()
            },
            i <= n,
            ab@ == a.spec_bytes(),
            bb@ == b.spec_bytes(),
            forall|j: int| 0 <= j < i ==> ab@[j] == bb@[j],
        decreases n - i,
    {
        if ab[i] != bb[i] {
            proof {
                lemma_bytes_lt_prefix(ab@, bb@, i as int);
            }
            return ab[i] < bb[i];
        }
        i = i + 1;
    }
    proof {
        lemma_bytes_lt_full_prefix(ab@, bb@, n as int);
    }
    alen < blen
}

/// When the first `i` bytes agree and byte `i` differs, the order is
/// decided by byte `i`.
proof fn lemma_bytes_lt_prefix(a: Seq<u8>, b: Seq<u8>, i: int)
    requires
        0 <= i < a.len(),
        i < b.len(),
        forall|j: int| 0 <= j < i ==> a[j] == b[j],
        a[i] != b[i],
    ensures
        bytes_lt(a, b) == (a[i] < b[i]),
    decreases i,
{
    if i > 0 {
        assert(forall|j: int| 0 <= j < i - 1 ==> a.drop_first()[j] == b.drop_first()[j]);
        assert(a.drop_first()[i - 1] == a[i]);
        assert(b.drop_first()[i - 1] == b[i]);
        lemma_bytes_lt_prefix(a.drop_first(), b.drop_first(), i - 1);
    }
}

/// When the first `min(len)` bytes agree, the shorter sequence is the
/// smaller one.
proof fn lemma_bytes_lt_full_prefix(a: Seq<u8>, b: Seq<u8>, n: int)
    requires
        n == if a.len() < b.len() {
            a.len() as int
        } else {
            b.len() as int
        },
        forall|j: int| 0 <= j < n ==> a[j] == b[j],
    ensures
        bytes_lt(a, b) == (a.len() < b.len()),
    decreases n,
{
    if n > 0 {
        assert(forall|j: int| 0 <= j < n - 1 ==> a.drop_first()[j] == b.drop_first()[j]);
        lemma_bytes_lt_full_prefix(a.drop_first(), b.drop_first(), n - 1);
    } else {
        if a.len() == 0 && b.len() > 0 {
            assert(bytes_lt(a, b));
        }
    }
}

} // verus!
