//! Leaf derivation and inclusion proofs over sorted-pair Keccak-256 trees.

use crate::keccak::{keccak256, keccak_hashv, lemma_concat_three, lemma_concat_two};
use crate::order::{digest_eq, digest_le, lex_le};
use vstd::bytes::{spec_u64_to_le_bytes, u64_to_le_bytes};
use vstd::prelude::*;

verus! {

/// The bytes hashed for one allocation: the slot index in eight
/// little-endian bytes, the recipient's identity, and the amount in eight
/// little-endian bytes.
pub open spec fn leaf_preimage(index: u64, wallet: Seq<u8>, amount: u64) -> Seq<u8> {
    spec_u64_to_le_bytes(index) + wallet + spec_u64_to_le_bytes(amount)
}

/// The leaf digest of one allocation.
pub open spec fn leaf_digest(index: u64, wallet: Seq<u8>, amount: u64) -> Seq<u8> {
    keccak256(leaf_preimage(index, wallet, amount))
}

/// Two digests joined with the smaller one first.
pub open spec fn sorted_pair(a: Seq<u8>, b: Seq<u8>) -> Seq<u8> {
    if lex_le(a, b) {
        a + b
    } else {
        b + a
    }
}

/// The digest of the parent of two nodes.
pub open spec fn node_digest(a: Seq<u8>, b: Seq<u8>) -> Seq<u8> {
    keccak256(sorted_pair(a, b))
}

/// The digest reached from `leaf` by combining it with each element of
/// `proof` in turn.
pub open spec fn fold_proof(leaf: Seq<u8>, proof: Seq<Seq<u8>>) -> Seq<u8>
    decreases proof.len(),
{
    if proof.len() == 0 {
        leaf
    } else {
        node_digest(fold_proof(leaf, proof.drop_last()), proof.last())
    }
}

/// The byte strings of a list of digests.
pub open spec fn digests(proof: Seq<[u8; 32]>) -> Seq<Seq<u8>> {
    Seq::new(proof.len(), |i: int| proof[i]@)
}

/// Whether `proof` leads from `leaf` to `root`.
pub open spec fn merkle_verifies(leaf: Seq<u8>, proof: Seq<Seq<u8>>, root: Seq<u8>) -> bool {
    fold_proof(leaf, proof) == root
}

/// Whether the leaf, every element of the proof and every digest met on
/// the way from the leaf to the end of the proof has 32 bytes.
pub open spec fn digest_sized(leaf: Seq<u8>, proof: Seq<Seq<u8>>) -> bool {
    &&& forall|i: int|
        0 <= i <= proof.len() ==> fold_proof(leaf, #[trigger] proof.take(i)).len() == 32
    &&& forall|i: int| 0 <= i < proof.len() ==> (#[trigger] proof[i]).len() == 32
}

/// Derives the leaf digest of one allocation.
pub fn keccak_leaf(index: u64, wallet: &[u8; 32], amount: u64) -> (leaf: [u8; 32])
    ensures
        leaf@ == leaf_digest(index, wallet@, amount),
{
    let index_bytes = u64_to_le_bytes(index);
    let amount_bytes = u64_to_le_bytes(amount);
    let parts: [&[u8]; 3] = [index_bytes.as_slice(), wallet.as_slice(), amount_bytes.as_slice()];
    proof {
        lemma_concat_three(parts@);
    }
    keccak_hashv(parts.as_slice())
}

/// Hashes two nodes into their parent, the smaller digest first.
pub fn hash_pair(a: &[u8; 32], b: &[u8; 32]) -> (parent: [u8; 32])
    ensures
        parent@ == node_digest(a@, b@),
{
    let parts: [&[u8]; 2] = if digest_le(a, b) {
        [a.as_slice(), b.as_slice()]
    } else {
        [b.as_slice(), a.as_slice()]
    };
    proof {
        lemma_concat_two(parts@);
    }
    keccak_hashv(parts.as_slice())
}

/// Checks an inclusion proof: folds `leaf` with every element of `proof`
/// in order and compares the outcome with `root`. Every digest met on the
/// way has 32 bytes.
pub fn verify_merkle_proof(leaf: &[u8; 32], proof: &Vec<[u8; 32]>, root: &[u8; 32]) -> (ok: bool)
    ensures
        ok == merkle_verifies(leaf@, digests(proof@), root@),
        digest_sized(leaf@, digests(proof@)),
{
    let mut hash: [u8; 32] = *leaf;
    let mut i: usize = 0;
    let ghost path = digests(proof@);
    assert(path.take(0) =~= Seq::empty());
    while i < proof.len()
        invariant
            i <= proof.len(),
            path == digests(proof@),
            hash@ == fold_proof(leaf@, path.take(i as int)),
            forall|k: int| 0 <= k <= i ==> fold_proof(leaf@, #[trigger] path.take(k)).len() == 32,
        decreases proof.len() - i,
    {
        assert(path.take(i + 1).drop_last() =~= path.take(i as int));
        assert(path.take(i + 1).last() == proof@[i as int]@);
        hash = hash_pair(&hash, &proof[i]);
        i += 1;
    }
    assert(path.take(i as int) =~= path);
    digest_eq(&hash, root)
}

} // verus!
