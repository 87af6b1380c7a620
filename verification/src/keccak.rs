//! Keccak-256, computed by the Solana program library.

use vstd::prelude::*;

verus! {

/// The Keccak-256 digest of a byte string.
pub uninterp spec fn keccak256(data: Seq<u8>) -> Seq<u8>;

/// The byte strings of `parts` joined in order.
pub open spec fn concat_parts(parts: Seq<&[u8]>) -> Seq<u8>
    decreases parts.len(),
{
    if parts.len() == 0 {
        Seq::empty()
    } else {
        concat_parts(parts.drop_last()) + parts.last()@
    }
}

/// Joining two parts gives the first followed by the second.
pub proof fn lemma_concat_two(parts: Seq<&[u8]>)
    requires
        parts.len() == 2,
    ensures
        concat_parts(parts) == parts[0]@ + parts[1]@,
{
    reveal_with_fuel(concat_parts, 3);
    assert(parts.drop_last().drop_last().len() == 0);
    assert(concat_parts(parts) =~= parts[0]@ + parts[1]@);
}

/// Joining three parts gives them one after the other.
pub proof fn lemma_concat_three(parts: Seq<&[u8]>)
    requires
        parts.len() == 3,
    ensures
        concat_parts(parts) == parts[0]@ + parts[1]@ + parts[2]@,
{
    lemma_concat_two(parts.drop_last());
    assert(concat_parts(parts) =~= parts[0]@ + parts[1]@ + parts[2]@);
}

/// Calls `solana_program::keccak::hashv`. That function feeds the parts, in
/// order, to a single Keccak-256 hasher and returns its 32-byte digest, so
/// the result is the digest of the parts joined together. Nothing else is
/// claimed of it.
#[verifier::external_body]
#[allow(deprecated)]
pub(crate) fn keccak_hashv(parts: &[&[u8]]) -> (digest: [u8; 32])
    ensures
        digest@ == keccak256(concat_parts(parts@)),
{
    anchor_lang::solana_program::keccak::hashv(parts).to_bytes()
}

} // verus!
