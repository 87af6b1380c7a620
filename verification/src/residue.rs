//! Bit-packed residue lanes.
//!
//! A lane is a byte string read as a bit vector: bit `r` lives in byte
//! `r / 8` at position `r % 8`, least significant bit first.

use vstd::prelude::*;

verus! {

/// Largest number of allocation slots a ledger may describe.
pub const MAX_CLAIMS: u64 = 1_000_000;

/// Modulus of the first residue lane.
pub const MODULUS_0: u64 = 971;

/// Modulus of the second residue lane.
pub const MODULUS_1: u64 = 311;

/// Modulus of the third residue lane.
pub const MODULUS_2: u64 = 601;

/// Whether two slots share a residue in at least one lane.
pub open spec fn collides(a: u64, b: u64) -> bool {
    ||| a % MODULUS_0 == b % MODULUS_0
    ||| a % MODULUS_1 == b % MODULUS_1
    ||| a % MODULUS_2 == b % MODULUS_2
}

/// Whether bit `k` of the byte `b` is set.
pub open spec fn byte_bit(b: u8, k: u8) -> bool {
    (b >> k) & 1u8 == 1u8
}

/// Whether bit `r` of the lane `bytes` is set. A position outside the lane
/// counts as unset.
pub open spec fn bit_at(bytes: Seq<u8>, r: int) -> bool {
    0 <= r < 8 * bytes.len() && byte_bit(bytes[r / 8], (r % 8) as u8)
}

/// The positions that are set in the lane `bytes`.
pub open spec fn marks(bytes: Seq<u8>) -> Set<int> {
    Set::new(|r: int| bit_at(bytes, r))
}

/// The lane `bytes` with bit `r` set. A position outside the lane leaves it
/// as it is.
pub open spec fn with_bit(bytes: Seq<u8>, r: int) -> Seq<u8> {
    if 0 <= r < 8 * bytes.len() {
        bytes.update(r / 8, bytes[r / 8] | (1u8 << ((r % 8) as u8)))
    } else {
        bytes
    }
}

/// Setting bit `k` of a byte sets that bit and changes no other.
pub proof fn lemma_byte_or_bit(b: u8, k: u8, j: u8)
    requires
        k < 8,
        j < 8,
    ensures
        byte_bit(b | (1u8 << k), j) == (byte_bit(b, j) || j == k),
{
    assert(((b | (1u8 << k)) >> j) & 1u8 == 1u8 <==> ((b >> j) & 1u8 == 1u8 || j == k))
        by (bit_vector)
        requires
            k < 8,
            j < 8,
    ;
}

/// Setting bit `r` of a lane sets that bit and changes no other.
pub proof fn lemma_with_bit_at(bytes: Seq<u8>, r: int, q: int)
    ensures
        bit_at(with_bit(bytes, r), q) == (bit_at(bytes, q) || (q == r && 0 <= r < 8 * bytes.len())),
{
    if 0 <= r < 8 * bytes.len() && 0 <= q < 8 * bytes.len() && q / 8 == r / 8 {
        lemma_byte_or_bit(bytes[r / 8], (r % 8) as u8, (q % 8) as u8);
    }
}

/// Setting bit `r` of a lane adds `r` to its marks and changes nothing else.
pub proof fn lemma_with_bit_marks(bytes: Seq<u8>, r: int)
    ensures
        with_bit(bytes, r).len() == bytes.len(),
        marks(with_bit(bytes, r)) == if 0 <= r < 8 * bytes.len() {
            marks(bytes).insert(r)
        } else {
            marks(bytes)
        },
{
    let after = with_bit(bytes, r);
    let grown = if 0 <= r < 8 * bytes.len() {
        marks(bytes).insert(r)
    } else {
        marks(bytes)
    };
    assert forall|q: int| marks(after).contains(q) == grown.contains(q) by {
        lemma_with_bit_at(bytes, r, q);
    }
    assert(marks(after) =~= grown);
}

/// A lane of zero bytes has no mark.
pub proof fn lemma_zero_lane_unmarked(bytes: Seq<u8>)
    requires
        forall|i: int| 0 <= i < bytes.len() ==> bytes[i] == 0,
    ensures
        forall|r: int| !bit_at(bytes, r),
        marks(bytes) == Set::<int>::empty(),
{
    assert forall|r: int| !bit_at(bytes, r) by {
        if 0 <= r < 8 * bytes.len() {
            let k = (r % 8) as u8;
            assert((0u8 >> k) & 1u8 != 1u8) by (bit_vector);
        }
    }
    assert(marks(bytes) =~= Set::<int>::empty());
}

/// Tests bit `residue` of a lane.
pub fn check_residue_set(residues: &[u8], residue: usize) -> (set: bool)
    ensures
        set == bit_at(residues@, residue as int),
{
    let byte_index = residue / 8;
    let bit_index: u8 = (residue % 8) as u8;
    match residues.get(byte_index) {
        Some(byte) => {
            let b: u8 = *byte;
            assert((b & (1u8 << bit_index) != 0) == ((b >> bit_index) & 1u8 == 1u8))
                by (bit_vector)
                requires
                    bit_index < 8,
            ;
            (b & (1u8 << bit_index)) != 0
        },
        None => false,
    }
}

/// Sets bit `residue` of a lane. Setting a set bit changes nothing.
pub fn set_residue(residues: &mut [u8], residue: usize)
    ensures
        final(residues)@ == with_bit(old(residues)@, residue as int),
        forall|q: int|
            #[trigger] bit_at(final(residues)@, q) == (bit_at(old(residues)@, q) || (q == residue
                && residue < 8 * old(residues)@.len())),
        marks(final(residues)@) == if residue < 8 * old(residues)@.len() {
            marks(old(residues)@).insert(residue as int)
        } else {
            marks(old(residues)@)
        },
{
    let byte_index = residue / 8;
    let bit_index: u8 = (residue % 8) as u8;
    proof {
        lemma_with_bit_marks(residues@, residue as int);
        assert forall|q: int|
            bit_at(with_bit(residues@, residue as int), q) == (bit_at(residues@, q) || (q
                == residue && residue < 8 * residues@.len())) by {
            lemma_with_bit_at(residues@, residue as int, q);
        }
    }
    if byte_index < residues.len() {
        let b: u8 = residues[byte_index];
        residues[byte_index] = b | (1u8 << bit_index);
    }
}

} // verus!
