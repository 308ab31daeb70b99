//! Byte-string utilities: lexicographic ordering, copying, appending, and a
//! little-endian length encoding used by the canonical encodings.

use vstd::prelude::*;

verus! {

/// Strict lexicographic order on byte strings: a shorter string precedes
/// every string it is a proper prefix of.
pub open spec fn lex_lt(a: Seq<u8>, b: Seq<u8>) -> bool
    decreases a.len(),
{
    if b.len() == 0 {
        false
    } else if a.len() == 0 {
        true
    } else if a[0] < b[0] {
        true
    } else if a[0] > b[0] {
        false
    } else {
        lex_lt(a.drop_first(), b.drop_first())
    }
}

/// Exactly one of `lex_lt(a, b)`, `lex_lt(b, a)`, `a == b` holds.
pub proof fn lemma_lex_trichotomy(a: Seq<u8>, b: Seq<u8>)
    ensures
        lex_lt(a, b) || lex_lt(b, a) || a == b,
        lex_lt(a, b) ==> !lex_lt(b, a) && a != b,
        lex_lt(b, a) ==> !lex_lt(a, b) && a != b,
    decreases a.len(),
{
    if a.len() == 0 && b.len() == 0 {
        assert(a =~= b);
    } else if a.len() > 0 && b.len() > 0 && a[0] == b[0] {
        lemma_lex_trichotomy(a.drop_first(), b.drop_first());
        if a.drop_first() == b.drop_first() {
            assert forall|i: int| 0 <= i < a.len() implies a[i] == b[i] by {
                if i > 0 {
                    assert(a[i] == a.drop_first()[i - 1]);
                    assert(b[i] == b.drop_first()[i - 1]);
                }
            }
            assert(a =~= b);
        }
        if a == b {
            assert(a.drop_first() =~= b.drop_first());
        }
    }
}

/// Compares the suffixes of `a` and `b` that start at `i`.
fn bytes_lt_from(a: &Vec<u8>, b: &Vec<u8>, i: usize) -> (r: bool)
    requires
        i <= a.len(),
        i <= b.len(),
    ensures
        r == lex_lt(a@.skip(i as int), b@.skip(i as int)),
    decreases a.len() - i,
{
    if i == b.len() {
        false
    } else if i == a.len() {
        true
    } else if a[i] < b[i] {
        true
    } else if a[i] > b[i] {
        false
    } else {
        proof {
            assert(a@.skip(i as int).drop_first() =~= a@.skip(i + 1 as int));
            assert(b@.skip(i as int).drop_first() =~= b@.skip(i + 1 as int));
        }
        bytes_lt_from(a, b, i + 1)
    }
}

/// Decides the strict lexicographic order on two byte strings.
pub fn bytes_lt(a: &Vec<u8>, b: &Vec<u8>) -> (r: bool)
    ensures
        r == lex_lt(a@, b@),
{
    proof {
        assert(a@.skip(0) =~= a@);
        assert(b@.skip(0) =~= b@);
    }
    bytes_lt_from(a, b, 0)
}

/// Decides equality of two byte strings.
pub fn bytes_eq(a: &Vec<u8>, b: &Vec<u8>) -> (r: bool)
    ensures
        r == (a@ == b@),
{
    if a.len() != b.len() {
        return false;
    }
    let mut i: usize = 0;
    while i < a.len()
        invariant
            i <= a.len(),
            a.len() == b.len(),
            forall|j: int| 0 <= j < i ==> a@[j] == b@[j],
        decreases a.len() - i,
    {
        if a[i] != b[i] {
            return false;
        }
        i += 1;
    }
    proof {
        assert(a@ =~= b@);
    }
    true
}

/// Returns a fresh byte string with the same contents as `v`.
pub fn clone_bytes(v: &Vec<u8>) -> (r: Vec<u8>)
    ensures
        r@ == v@,
{
    let mut r: Vec<u8> = Vec::new();
    let mut i: usize = 0;
    while i < v.len()
        invariant
            i <= v.len(),
            r@ == v@.take(i as int),
        decreases v.len() - i,
    {
        r.push(v[i]);
        proof {
            assert(v@.take(i as int).push(v@[i as int]) =~= v@.take(i + 1 as int));
        }
        i += 1;
    }
    proof {
        assert(v@.take(v@.len() as int) =~= v@);
    }
    r
}

/// Appends the contents of `src` to `dst`.
pub fn append_bytes(dst: &mut Vec<u8>, src: &Vec<u8>)
    ensures
        final(dst)@ == old(dst)@ + src@,
{
    let mut i: usize = 0;
    while i < src.len()
        invariant
            i <= src.len(),
            dst@ == old(dst)@ + src@.take(i as int),
        decreases src.len() - i,
    {
        proof {
            assert(old(dst)@ + src@.take(0) =~= old(dst)@);
        }
        dst.push(src[i]);
        proof {
            assert((old(dst)@ + src@.take(i as int)).push(src@[i as int]) =~= old(dst)@ + src@.take(
                i + 1 as int,
            ));
        }
        i += 1;
    }
    proof {
        assert(old(dst)@ + src@.take(0) =~= old(dst)@);
        assert(old(dst)@ + src@.take(src@.len() as int) =~= old(dst)@ + src@);
    }
}

/// The eight little-endian bytes of `x`.
pub open spec fn spec_u64_le(x: u64) -> Seq<u8> {
    seq![
        (x % 256) as u8,
        ((x / 0x100) % 256) as u8,
        ((x / 0x10000) % 256) as u8,
        ((x / 0x1000000) % 256) as u8,
        ((x / 0x100000000) % 256) as u8,
        ((x / 0x10000000000) % 256) as u8,
        ((x / 0x1000000000000) % 256) as u8,
        ((x / 0x100000000000000) % 256) as u8,
    ]
}

/// Encodes `x` as its eight little-endian bytes.
pub fn u64_le(x: u64) -> (r: Vec<u8>)
    ensures
        r@ == spec_u64_le(x),
        r@.len() == 8,
{
    let mut r: Vec<u8> = Vec::new();
    r.push((x % 256) as u8);
    r.push(((x / 0x100) % 256) as u8);
    r.push(((x / 0x10000) % 256) as u8);
    r.push(((x / 0x1000000) % 256) as u8);
    r.push(((x / 0x100000000) % 256) as u8);
    r.push(((x / 0x10000000000) % 256) as u8);
    r.push(((x / 0x1000000000000) % 256) as u8);
    r.push(((x / 0x100000000000000) % 256) as u8);
    proof {
        assert(r@ =~= spec_u64_le(x));
    }
    r
}

/// A byte string prefixed with its length: the building block of the
/// canonical encodings, which keeps concatenated fields unambiguous.
pub open spec fn spec_lp(s: Seq<u8>) -> Seq<u8> {
    spec_u64_le(s.len() as u64) + s
}

/// Appends the length-prefixed form of `src` to `dst`.
pub fn append_lp(dst: &mut Vec<u8>, src: &Vec<u8>)
    ensures
        final(dst)@ == old(dst)@ + spec_lp(src@),
{
    let len = u64_le(src.len() as u64);
    append_bytes(dst, &len);
    append_bytes(dst, src);
    proof {
        assert(old(dst)@ + spec_u64_le(src@.len() as u64) + src@ =~= old(dst)@ + spec_lp(src@));
    }
}

/// `p` is a prefix of `k`.
pub open spec fn has_prefix(k: Seq<u8>, p: Seq<u8>) -> bool {
    k.len() >= p.len() && k.take(p.len() as int) == p
}

/// Decides whether `p` is a prefix of `k`.
pub fn bytes_has_prefix(k: &Vec<u8>, p: &Vec<u8>) -> (r: bool)
    ensures
        r == has_prefix(k@, p@),
{
    if k.len() < p.len() {
        return false;
    }
    let mut i: usize = 0;
    while i < p.len()
        invariant
            i <= p.len(),
            p.len() <= k.len(),
            forall|j: int| 0 <= j < i ==> k@[j] == p@[j],
        decreases p.len() - i,
    {
        if k[i] != p[i] {
            assert(k@.take(p@.len() as int)[i as int] != p@[i as int]);
            return false;
        }
        i += 1;
    }
    proof {
        assert(k@.take(p@.len() as int) =~= p@);
    }
    true
}

} // verus!
