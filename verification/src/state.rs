//! The ledger record and its residue membership index.

use crate::residue::{
    bit_at, check_residue_set, collides, lemma_with_bit_at, lemma_with_bit_marks, marks,
    set_residue, with_bit, MAX_CLAIMS,
    MODULUS_0, MODULUS_1, MODULUS_2,
};
use vstd::prelude::*;

verus! {

/// Bytes the stored record takes: an eight-byte tag followed by the fields
/// in declaration order.
pub const STATE_SPACE: usize = 8 + 32 + 32 + 8 + 8 + 1 + 32 + 8 + 122 + 39 + 76;

/// The ledger record.
///
/// The three residue lanes hold one bit per residue of their modulus. A slot
/// counts as redeemed as soon as any one of its three residues is marked, so
/// a slot that was never redeemed is turned away when it shares a residue
/// with one that was.
#[derive(Clone, Copy, Debug, PartialEq, Eq)]
pub struct State {
    pub authority: [u8; 32],
    pub snapshot_hash: [u8; 32],
    pub claim_start_ts: i64,
    pub claim_duration: i64,
    pub claim_closed: bool,
    pub merkle_root: [u8; 32],
    pub total_claims: u64,
    pub claim_residues0: [u8; 122],
    pub claim_residues1: [u8; 39],
    pub claim_residues2: [u8; 76],
}

impl State {
    /// What creation establishes and every operation keeps: the slot count
    /// is within bounds and the window has a positive duration.
    pub open spec fn well_formed(self) -> bool {
        &&& self.total_claims <= MAX_CLAIMS
        &&& self.claim_duration > 0
    }

    /// No residue is marked in any lane.
    pub open spec fn unmarked(self) -> bool {
        &&& marks(self.claim_residues0@) == Set::<int>::empty()
        &&& marks(self.claim_residues1@) == Set::<int>::empty()
        &&& marks(self.claim_residues2@) == Set::<int>::empty()
    }

    /// Whether `now` lies in the claim window, both ends included. The end
    /// is the exact sum of start and duration, which may lie beyond the
    /// largest time there is.
    pub open spec fn window_open(self, now: i64) -> bool {
        self.claim_start_ts <= now <= self.claim_start_ts + self.claim_duration
    }

    /// Whether the index takes slot `index` for redeemed: one of its three
    /// residues is marked.
    pub open spec fn member(self, index: u64) -> bool {
        ||| bit_at(self.claim_residues0@, (index % MODULUS_0) as int)
        ||| bit_at(self.claim_residues1@, (index % MODULUS_1) as int)
        ||| bit_at(self.claim_residues2@, (index % MODULUS_2) as int)
    }

    /// Whether `later` differs from `self` in the residue lanes alone.
    pub open spec fn same_record_as(self, later: State) -> bool {
        later == (State {
            claim_residues0: later.claim_residues0,
            claim_residues1: later.claim_residues1,
            claim_residues2: later.claim_residues2,
            ..self
        })
    }

    /// Whether `later` is `self` with the three residues of `index` marked
    /// and nothing else changed.
    pub open spec fn recorded_as(self, index: u64, later: State) -> bool {
        &&& self.same_record_as(later)
        &&& later.claim_residues0@ == with_bit(
            self.claim_residues0@,
            (index % MODULUS_0) as int,
        )
        &&& later.claim_residues1@ == with_bit(
            self.claim_residues1@,
            (index % MODULUS_1) as int,
        )
        &&& later.claim_residues2@ == with_bit(
            self.claim_residues2@,
            (index % MODULUS_2) as int,
        )
    }

    /// Whether every residue marked in `self` is still marked in `later`.
    pub open spec fn marks_kept_by(self, later: State) -> bool {
        &&& marks(self.claim_residues0@).subset_of(marks(later.claim_residues0@))
        &&& marks(self.claim_residues1@).subset_of(marks(later.claim_residues1@))
        &&& marks(self.claim_residues2@).subset_of(marks(later.claim_residues2@))
    }

    /// Tells whether `now` lies in the claim window, both ends included.
    pub fn is_window_open(&self, now: i64) -> (open: bool)
        ensures
            open == self.window_open(now),
    {
        now >= self.claim_start_ts && (now as i128) <= (self.claim_start_ts as i128) + (
        self.claim_duration as i128)
    }

    /// Tells whether the index takes slot `index` for redeemed.
    pub fn is_member(&self, index: u64) -> (found: bool)
        ensures
            found == self.member(index),
    {
        check_residue_set(&self.claim_residues0, (index % MODULUS_0) as usize)
            || check_residue_set(&self.claim_residues1, (index % MODULUS_1) as usize)
            || check_residue_set(&self.claim_residues2, (index % MODULUS_2) as usize)
    }

    /// Tests and marks slot `index` in one step. Returns `true` and marks
    /// the slot's three residues when none of them was marked; returns
    /// `false` and changes nothing otherwise.
    pub fn try_record(&mut self, index: u64) -> (recorded: bool)
        ensures
            recorded == !old(self).member(index),
            recorded ==> old(self).recorded_as(index, *final(self)),
            !recorded ==> *final(self) == *old(self),
            recorded ==> forall|other: u64|
                #[trigger] final(self).member(other) == (old(self).member(other) || collides(
                    index,
                    other,
                )),
            final(self).member(index),
            old(self).marks_kept_by(*final(self)),
    {
        if self.is_member(index) {
            return false;
        }
        let ghost before = *self;
        set_residue(&mut self.claim_residues0, (index % MODULUS_0) as usize);
        set_residue(&mut self.claim_residues1, (index % MODULUS_1) as usize);
        set_residue(&mut self.claim_residues2, (index % MODULUS_2) as usize);
        proof {
            assert forall|other: u64|
                #[trigger] self.member(other) == (before.member(other) || collides(
                    index,
                    other,
                )) by {
                lemma_record_adds_collisions(before, index, *self, other);
            }
            lemma_record_adds_collisions(before, index, *self, index);
        }
        true
    }
}

/// A ledger with no mark takes no slot for redeemed.
pub proof fn lemma_unmarked_has_no_member(state: State, index: u64)
    requires
        state.unmarked(),
    ensures
        !state.member(index),
{
    let r0 = (index % MODULUS_0) as int;
    let r1 = (index % MODULUS_1) as int;
    let r2 = (index % MODULUS_2) as int;
    assert(bit_at(state.claim_residues0@, r0) ==> marks(state.claim_residues0@).contains(r0));
    assert(bit_at(state.claim_residues1@, r1) ==> marks(state.claim_residues1@).contains(r1));
    assert(bit_at(state.claim_residues2@, r2) ==> marks(state.claim_residues2@).contains(r2));
}

/// Recording a slot marks exactly its residue in each lane: afterwards a
/// slot is a member when it was one before or shares a residue with the
/// recorded slot.
pub proof fn lemma_record_adds_collisions(before: State, index: u64, after: State, other: u64)
    requires
        before.recorded_as(index, after),
    ensures
        after.member(other) == (before.member(other) || collides(index, other)),
        after.member(index),
        before.marks_kept_by(after),
        marks(after.claim_residues0@) == marks(before.claim_residues0@).insert(
            (index % MODULUS_0) as int,
        ),
        marks(after.claim_residues1@) == marks(before.claim_residues1@).insert(
            (index % MODULUS_1) as int,
        ),
        marks(after.claim_residues2@) == marks(before.claim_residues2@).insert(
            (index % MODULUS_2) as int,
        ),
{
    let (b0, b1, b2) = (before.claim_residues0@, before.claim_residues1@, before.claim_residues2@);
    let (r0, r1, r2) = (
        (index % MODULUS_0) as int,
        (index % MODULUS_1) as int,
        (index % MODULUS_2) as int,
    );
    let (q0, q1, q2) = (
        (other % MODULUS_0) as int,
        (other % MODULUS_1) as int,
        (other % MODULUS_2) as int,
    );
    lemma_with_bit_marks(b0, r0);
    lemma_with_bit_marks(b1, r1);
    lemma_with_bit_marks(b2, r2);
    lemma_with_bit_at(b0, r0, q0);
    lemma_with_bit_at(b1, r1, q1);
    lemma_with_bit_at(b2, r2, q2);
    lemma_with_bit_at(b0, r0, r0);
    lemma_with_bit_at(b1, r1, r1);
    lemma_with_bit_at(b2, r2, r2);
}

/// A slot that the index takes for redeemed is taken for redeemed by every
/// state that keeps its marks.
pub proof fn lemma_member_persists(earlier: State, later: State, index: u64)
    requires
        earlier.member(index),
        earlier.marks_kept_by(later),
    ensures
        later.member(index),
{
    let r0 = (index % MODULUS_0) as int;
    let r1 = (index % MODULUS_1) as int;
    let r2 = (index % MODULUS_2) as int;
    assert(bit_at(earlier.claim_residues0@, r0) ==> marks(earlier.claim_residues0@).contains(r0));
    assert(bit_at(earlier.claim_residues1@, r1) ==> marks(earlier.claim_residues1@).contains(r1));
    assert(bit_at(earlier.claim_residues2@, r2) ==> marks(earlier.claim_residues2@).contains(r2));
    assert(marks(later.claim_residues0@).contains(r0) ==> bit_at(later.claim_residues0@, r0));
    assert(marks(later.claim_residues1@).contains(r1) ==> bit_at(later.claim_residues1@, r1));
    assert(marks(later.claim_residues2@).contains(r2) ==> bit_at(later.claim_residues2@, r2));
}

} // verus!
