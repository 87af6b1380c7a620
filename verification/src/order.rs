//! The order and equality of digests.
//!
//! Digests are compared byte by byte from the front, which for strings of
//! one length is the order of the numbers they spell most significant byte
//! first.

use vstd::prelude::*;

verus! {

/// Byte-wise dictionary order: `a` comes no later than `b`.
pub open spec fn lex_le(a: Seq<u8>, b: Seq<u8>) -> bool
    decreases a.len(),
{
    if a.len() == 0 {
        true
    } else if b.len() == 0 {
        false
    } else if a[0] != b[0] {
        a[0] < b[0]
    } else {
        lex_le(a.skip(1), b.skip(1))
    }
}

/// The number that a byte string spells in base 256, most significant byte
/// first.
pub open spec fn be_value(d: Seq<u8>) -> nat
    decreases d.len(),
{
    if d.len() == 0 {
        0
    } else {
        be_value(d.drop_last()) * 256 + d.last() as nat
    }
}

/// Of two byte strings, one comes no later than the other.
pub proof fn lemma_lex_le_total(a: Seq<u8>, b: Seq<u8>)
    ensures
        lex_le(a, b) || lex_le(b, a),
    decreases a.len(),
{
    if a.len() > 0 && b.len() > 0 && a[0] == b[0] {
        lemma_lex_le_total(a.skip(1), b.skip(1));
    }
}

/// Two byte strings that each come no later than the other are the same.
pub proof fn lemma_lex_le_antisymmetric(a: Seq<u8>, b: Seq<u8>)
    requires
        lex_le(a, b),
        lex_le(b, a),
    ensures
        a == b,
    decreases a.len(),
{
    if a.len() == 0 {
        assert(a =~= b);
    } else {
        lemma_lex_le_antisymmetric(a.skip(1), b.skip(1));
        assert(a =~= seq![a[0]] + a.skip(1));
        assert(b =~= seq![b[0]] + b.skip(1));
    }
}

/// The order of two non-empty strings of one length is decided by their
/// last bytes when all bytes before agree, and by the bytes before
/// otherwise.
pub proof fn lemma_lex_le_by_last(a: Seq<u8>, b: Seq<u8>)
    requires
        a.len() == b.len(),
        a.len() > 0,
    ensures
        lex_le(a, b) == if a.drop_last() == b.drop_last() {
            a.last() <= b.last()
        } else {
            lex_le(a.drop_last(), b.drop_last())
        },
    decreases a.len(),
{
    let ad = a.drop_last();
    let bd = b.drop_last();
    let a1 = a.skip(1);
    let b1 = b.skip(1);
    if a.len() == 1 {
        assert(ad =~= bd);
        assert(lex_le(a1, b1));
    } else {
        lemma_lex_le_by_last(a1, b1);
        assert(a1.drop_last() =~= ad.skip(1));
        assert(b1.drop_last() =~= bd.skip(1));
        assert(a1.last() == a.last() && b1.last() == b.last());
        assert(ad[0] == a[0] && bd[0] == b[0]);
        if a[0] != b[0] {
            assert(lex_le(ad, bd) == (a[0] < b[0]));
        } else if ad.skip(1) == bd.skip(1) {
            assert forall|i: int| 0 <= i < ad.len() implies ad[i] == bd[i] by {
                if i > 0 {
                    assert(ad[i] == ad.skip(1)[i - 1]);
                    assert(bd[i] == bd.skip(1)[i - 1]);
                }
            }
            assert(ad =~= bd);
        } else {
            assert(lex_le(ad, bd) == lex_le(ad.skip(1), bd.skip(1)));
        }
    }
}

/// For byte strings of one length, the byte-wise order is the order of the
/// numbers they spell, and equal numbers mean equal strings.
pub proof fn lemma_lex_le_is_numeric(a: Seq<u8>, b: Seq<u8>)
    requires
        a.len() == b.len(),
    ensures
        lex_le(a, b) <==> be_value(a) <= be_value(b),
        a == b <==> be_value(a) == be_value(b),
    decreases a.len(),
{
    if a.len() == 0 {
        assert(a =~= b);
    } else {
        lemma_lex_le_by_last(a, b);
        lemma_lex_le_is_numeric(a.drop_last(), b.drop_last());
        if a.drop_last() == b.drop_last() && a.last() == b.last() {
            assert(a =~= a.drop_last().push(a.last()));
            assert(b =~= b.drop_last().push(b.last()));
        }
    }
}

/// Tells whether `a` comes no later than `b`: byte by byte from the front,
/// which is the order of the two as 32-byte big-endian numbers.
pub fn digest_le(a: &[u8; 32], b: &[u8; 32]) -> (le: bool)
    ensures
        le == lex_le(a@, b@),
        le == (be_value(a@) <= be_value(b@)),
{
    proof {
        lemma_lex_le_is_numeric(a@, b@);
    }
    let mut i: usize = 0;
    assert(a@.skip(0) =~= a@ && b@.skip(0) =~= b@);
    while i < 32
        invariant
            i <= 32,
            lex_le(a@, b@) == lex_le(a@.skip(i as int), b@.skip(i as int)),
            lex_le(a@, b@) == (be_value(a@) <= be_value(b@)),
        decreases 32 - i,
    {
        if a[i] != b[i] {
            return a[i] < b[i];
        }
        assert(a@.skip(i as int).skip(1) =~= a@.skip(i + 1));
        assert(b@.skip(i as int).skip(1) =~= b@.skip(i + 1));
        i += 1;
    }
    true
}

/// Tells whether two 32-byte values, digests or identities, are the same.
pub fn digest_eq(a: &[u8; 32], b: &[u8; 32]) -> (same: bool)
    ensures
        same == (a@ == b@),
{
    let mut i: usize = 0;
    while i < 32
        invariant
            i <= 32,
            forall|k: int| 0 <= k < i ==> a@[k] == b@[k],
        decreases 32 - i,
    {
        if a[i] != b[i] {
            return false;
        }
        i += 1;
    }
    assert(a@ =~= b@);
    true
}

} // verus!
