//! Hash trees as mathematical values, the inclusion proofs they give, and
//! what it would take to forge one.

use crate::keccak::keccak256;
use crate::merkle::{digest_sized, fold_proof, merkle_verifies, node_digest, sorted_pair};
use crate::order::{lemma_lex_le_antisymmetric, lemma_lex_le_total, lex_le};
use vstd::prelude::*;

verus! {

/// A binary hash tree over leaf digests.
pub enum MerkleTree {
    Leaf { digest: Seq<u8> },
    Node { left: Box<MerkleTree>, right: Box<MerkleTree> },
}

impl MerkleTree {
    /// The commitment of the tree: a leaf's digest, or the parent digest of
    /// the two subtrees' commitments.
    pub open spec fn root(self) -> Seq<u8>
        decreases self,
    {
        match self {
            MerkleTree::Leaf { digest } => digest,
            MerkleTree::Node { left, right } => node_digest(left.root(), right.root()),
        }
    }

    /// The leaf reached from the root by `turns`, where `false` goes left
    /// and `true` goes right; `None` when the turns do not end on a leaf.
    pub open spec fn leaf_at(self, turns: Seq<bool>) -> Option<Seq<u8>>
        decreases self,
    {
        match self {
            MerkleTree::Leaf { digest } => if turns.len() == 0 {
                Some(digest)
            } else {
                None
            },
            MerkleTree::Node { left, right } => if turns.len() == 0 {
                None
            } else if turns[0] {
                right.leaf_at(turns.skip(1))
            } else {
                left.leaf_at(turns.skip(1))
            },
        }
    }

    /// The inclusion proof of the leaf at `turns`: the commitments of the
    /// subtrees left aside on the way down, the lowest first.
    pub open spec fn inclusion_proof(self, turns: Seq<bool>) -> Seq<Seq<u8>>
        decreases self,
    {
        match self {
            MerkleTree::Leaf { digest } => Seq::empty(),
            MerkleTree::Node { left, right } => if turns.len() == 0 {
                Seq::empty()
            } else if turns[0] {
                right.inclusion_proof(turns.skip(1)).push(left.root())
            } else {
                left.inclusion_proof(turns.skip(1)).push(right.root())
            },
        }
    }
}

/// Whether `x` and `y` are different byte strings with the same digest.
pub open spec fn collision(x: Seq<u8>, y: Seq<u8>) -> bool {
    x != y && keccak256(x) == keccak256(y)
}

/// The parent digest does not depend on which child is named first.
pub proof fn lemma_node_digest_symmetric(a: Seq<u8>, b: Seq<u8>)
    ensures
        sorted_pair(a, b) == sorted_pair(b, a),
        node_digest(a, b) == node_digest(b, a),
{
    lemma_lex_le_total(a, b);
    if lex_le(a, b) && lex_le(b, a) {
        lemma_lex_le_antisymmetric(a, b);
    }
}

/// Every leaf of every tree verifies against the tree's commitment with the
/// inclusion proof that the tree gives for it.
pub proof fn lemma_inclusion_proof_verifies(tree: MerkleTree, turns: Seq<bool>)
    requires
        tree.leaf_at(turns) is Some,
    ensures
        merkle_verifies(tree.leaf_at(turns).unwrap(), tree.inclusion_proof(turns), tree.root()),
    decreases tree,
{
    match tree {
        MerkleTree::Leaf { digest } => {},
        MerkleTree::Node { left, right } => {
            let rest = turns.skip(1);
            if turns[0] {
                lemma_inclusion_proof_verifies(*right, rest);
                let below = right.inclusion_proof(rest);
                assert(below.push(left.root()).drop_last() =~= below);
                lemma_node_digest_symmetric(right.root(), left.root());
            } else {
                lemma_inclusion_proof_verifies(*left, rest);
                let below = left.inclusion_proof(rest);
                assert(below.push(right.root()).drop_last() =~= below);
            }
        },
    }
}

/// A proof that leads to one commitment leads to no other.
pub proof fn lemma_proof_fixes_root(
    leaf: Seq<u8>,
    proof: Seq<Seq<u8>>,
    root: Seq<u8>,
    other: Seq<u8>,
)
    requires
        merkle_verifies(leaf, proof, root),
        other != root,
    ensures
        !merkle_verifies(leaf, proof, other),
{
}

/// Two different digests joined with one and the same third give
/// different strings, whichever side the third is on.
pub proof fn lemma_sorted_pair_tells_apart(a: Seq<u8>, b: Seq<u8>, p: Seq<u8>)
    requires
        a != b,
        a.len() == 32,
        b.len() == 32,
        p.len() == 32,
    ensures
        sorted_pair(a, p) != sorted_pair(b, p),
        sorted_pair(p, a) != sorted_pair(p, b),
{
    let x = sorted_pair(a, p);
    let y = sorted_pair(b, p);
    if x == y {
        assert((a + p).subrange(0, 32) =~= a);
        assert((b + p).subrange(0, 32) =~= b);
        assert((p + a).subrange(32, 64) =~= a);
        assert((p + b).subrange(32, 64) =~= b);
        assert((p + a).subrange(0, 32) =~= p);
        assert((p + b).subrange(0, 32) =~= p);
        assert((a + p).subrange(32, 64) =~= p);
        assert((b + p).subrange(32, 64) =~= p);
        assert(x.subrange(0, 32) == y.subrange(0, 32));
        assert(x.subrange(32, 64) == y.subrange(32, 64));
        assert(false);
    }
    lemma_node_digest_symmetric(a, p);
    lemma_node_digest_symmetric(b, p);
}

/// A proof without its last element is sized as the whole proof is.
pub proof fn lemma_digest_sized_prefix(leaf: Seq<u8>, proof: Seq<Seq<u8>>)
    requires
        digest_sized(leaf, proof),
        proof.len() > 0,
    ensures
        digest_sized(leaf, proof.drop_last()),
        fold_proof(leaf, proof.drop_last()).len() == 32,
        proof.last().len() == 32,
{
    let rest = proof.drop_last();
    assert forall|i: int| 0 <= i <= rest.len() implies fold_proof(
        leaf,
        #[trigger] rest.take(i),
    ).len() == 32 by {
        assert(rest.take(i) =~= proof.take(i));
    }
    assert forall|i: int| 0 <= i < rest.len() implies (#[trigger] rest[i]).len() == 32 by {
        assert(rest[i] == proof[i]);
    }
    assert(proof.take(proof.len() - 1) =~= rest);
    assert(proof[proof.len() - 1].len() == 32);
}

/// A proof that leads two different leaves to one digest exhibits two
/// different strings with the same Keccak-256 digest. So a leaf changed in
/// a single bit passes a genuine proof only by such a collision.
pub proof fn lemma_forged_leaf_collides(leaf: Seq<u8>, forged: Seq<u8>, proof: Seq<Seq<u8>>)
    requires
        leaf != forged,
        digest_sized(leaf, proof),
        digest_sized(forged, proof),
        fold_proof(leaf, proof) == fold_proof(forged, proof),
    ensures
        exists|x: Seq<u8>, y: Seq<u8>| collision(x, y),
    decreases proof.len(),
{
    if proof.len() > 0 {
        let rest = proof.drop_last();
        lemma_digest_sized_prefix(leaf, proof);
        lemma_digest_sized_prefix(forged, proof);
        let below = fold_proof(leaf, rest);
        let forged_below = fold_proof(forged, rest);
        if below == forged_below {
            lemma_forged_leaf_collides(leaf, forged, rest);
        } else {
            lemma_sorted_pair_tells_apart(below, forged_below, proof.last());
            assert(collision(
                sorted_pair(below, proof.last()),
                sorted_pair(forged_below, proof.last()),
            ));
        }
    }
}

/// A proof that still leads a leaf to the same digest after one of its
/// elements was replaced by another exhibits two different strings with
/// the same Keccak-256 digest.
pub proof fn lemma_forged_element_collides(
    leaf: Seq<u8>,
    proof: Seq<Seq<u8>>,
    position: int,
    forged: Seq<u8>,
)
    requires
        0 <= position < proof.len(),
        forged != proof[position],
        digest_sized(leaf, proof),
        digest_sized(leaf, proof.update(position, forged)),
        fold_proof(leaf, proof) == fold_proof(leaf, proof.update(position, forged)),
    ensures
        exists|x: Seq<u8>, y: Seq<u8>| collision(x, y),
    decreases proof.len(),
{
    let changed = proof.update(position, forged);
    let rest = proof.drop_last();
    lemma_digest_sized_prefix(leaf, proof);
    lemma_digest_sized_prefix(leaf, changed);
    if position == proof.len() - 1 {
        assert(changed.drop_last() =~= rest);
        let below = fold_proof(leaf, rest);
        lemma_sorted_pair_tells_apart(proof.last(), forged, below);
        assert(collision(sorted_pair(below, proof.last()), sorted_pair(below, forged)));
    } else {
        assert(changed.drop_last() =~= rest.update(position, forged));
        let below = fold_proof(leaf, rest);
        let changed_below = fold_proof(leaf, rest.update(position, forged));
        if below == changed_below {
            lemma_forged_element_collides(leaf, rest, position, forged);
        } else {
            lemma_sorted_pair_tells_apart(below, changed_below, proof.last());
            assert(collision(
                sorted_pair(below, proof.last()),
                sorted_pair(changed_below, proof.last()),
            ));
        }
    }
}

} // verus!
