//! What holds of a ledger over its life: marks are never lost, slots are
//! turned away exactly on a shared residue, and the window and the
//! authority are enforced.

use crate::error::ErrorCode;
use crate::instructions::{claim_rejection, root_update_rejection, window_update_rejection};
use crate::residue::{collides, marks, MODULUS_0, MODULUS_1, MODULUS_2};
use crate::state::{
    lemma_member_persists, lemma_record_adds_collisions, lemma_unmarked_has_no_member, State,
};
use vstd::prelude::*;

verus! {

/// The residues that the slots of `slots` leave under the modulus `m`.
pub open spec fn residues_of(slots: Seq<u64>, m: u64) -> Set<int> {
    Set::new(|r: int| exists|k: int| 0 <= k < slots.len() && #[trigger] slots[k] % m == r)
}

/// Whether `later` is `start` after the slots of `slots` were recorded one
/// after the other.
pub open spec fn recorded_all(start: State, slots: Seq<u64>, later: State) -> bool
    decreases slots.len(),
{
    if slots.len() == 0 {
        later == start
    } else {
        exists|mid: State|
            recorded_all(start, slots.drop_last(), mid) && #[trigger] mid.recorded_as(
                slots.last(),
                later,
            )
    }
}

/// Whether each state of `history` keeps the marks of the one before it.
pub open spec fn marks_kept_along(history: Seq<State>) -> bool {
    forall|k: int|
        0 <= k < history.len() - 1 ==> (#[trigger] history[k]).marks_kept_by(history[k + 1])
}

/// Along a history in which no step clears a mark, every later state has
/// all the marks of every earlier one.
pub proof fn lemma_marks_never_cleared(history: Seq<State>, i: int, j: int)
    requires
        marks_kept_along(history),
        0 <= i <= j < history.len(),
    ensures
        history[i].marks_kept_by(history[j]),
    decreases j - i,
{
    if i < j {
        lemma_marks_never_cleared(history, i, j - 1);
        assert(history[j - 1].marks_kept_by(history[j - 1 + 1]));
    }
}

/// Once the index takes a slot for redeemed, it does so in every later
/// state of a history in which no step clears a mark.
pub proof fn lemma_no_false_negative(history: Seq<State>, i: int, j: int, index: u64)
    requires
        marks_kept_along(history),
        0 <= i <= j < history.len(),
        history[i].member(index),
    ensures
        history[j].member(index),
{
    lemma_marks_never_cleared(history, i, j);
    lemma_member_persists(history[i], history[j], index);
}

/// After recording `slots` on a ledger with no mark, each lane holds
/// exactly the residues of those slots, and a slot is turned away exactly
/// when it shares a residue with one of them, whether or not it was ever
/// recorded itself.
pub proof fn lemma_rejected_iff_collision(
    start: State,
    slots: Seq<u64>,
    later: State,
    other: u64,
)
    requires
        start.unmarked(),
        recorded_all(start, slots, later),
    ensures
        marks(later.claim_residues0@) == residues_of(slots, MODULUS_0),
        marks(later.claim_residues1@) == residues_of(slots, MODULUS_1),
        marks(later.claim_residues2@) == residues_of(slots, MODULUS_2),
        later.member(other) <==> exists|k: int|
            0 <= k < slots.len() && collides(#[trigger] slots[k], other),
    decreases slots.len(),
{
    if slots.len() == 0 {
        assert(residues_of(slots, MODULUS_0) =~= Set::<int>::empty());
        assert(residues_of(slots, MODULUS_1) =~= Set::<int>::empty());
        assert(residues_of(slots, MODULUS_2) =~= Set::<int>::empty());
        lemma_unmarked_has_no_member(start, other);
    } else {
        let before = slots.drop_last();
        let last = slots.last();
        let mid = choose|mid: State|
            recorded_all(start, before, mid) && #[trigger] mid.recorded_as(last, later);
        lemma_rejected_iff_collision(start, before, mid, other);
        lemma_record_adds_collisions(mid, last, later, other);
        lemma_residues_of_push(slots, MODULUS_0);
        lemma_residues_of_push(slots, MODULUS_1);
        lemma_residues_of_push(slots, MODULUS_2);
        if later.member(other) {
            if mid.member(other) {
                let k = choose|k: int| 0 <= k < before.len() && collides(#[trigger] before[k], other);
                assert(slots[k] == before[k]);
            } else {
                assert(collides(slots[slots.len() - 1], other));
            }
        }
        if exists|k: int| 0 <= k < slots.len() && collides(#[trigger] slots[k], other) {
            let k = choose|k: int| 0 <= k < slots.len() && collides(#[trigger] slots[k], other);
            if k < before.len() {
                assert(collides(before[k], other));
            }
        }
    }
}

/// On an open ledger a claim made before the window starts or after it
/// ends is refused for that reason whatever else holds of it, a claim made
/// at either end of the window is not, and a claim inside the window goes
/// through when its slot is in range, its proof holds and the slot is no
/// member yet.
pub proof fn lemma_window_enforced(s: State, now: i64, index: u64, proof_ok: bool)
    requires
        !s.claim_closed,
    ensures
        now < s.claim_start_ts || now > s.claim_start_ts + s.claim_duration ==> claim_rejection(
            s,
            now,
            index,
            proof_ok,
        ) == Some(ErrorCode::ClaimWindowClosed),
        s.claim_duration >= 0 && (now == s.claim_start_ts || now == s.claim_start_ts
            + s.claim_duration) ==> claim_rejection(s, now, index, proof_ok) != Some(
            ErrorCode::ClaimWindowClosed,
        ),
        s.window_open(now) && index < s.total_claims && proof_ok && !s.member(index)
            ==> claim_rejection(s, now, index, proof_ok) is None,
{
}

/// Whatever the arguments, the authority's controls refuse a caller who is
/// not the stored authority as unauthorized.
pub proof fn lemma_stranger_refused(
    s: State,
    caller: [u8; 32],
    new_duration: i64,
    new_total_claims: u64,
)
    requires
        caller@ != s.authority@,
    ensures
        window_update_rejection(s, caller, new_duration) == Some(ErrorCode::Unauthorized),
        root_update_rejection(s, caller, new_total_claims) == Some(ErrorCode::Unauthorized),
{
}

/// The residues of a list of slots are those of all but the last, and the
/// last one's.
pub proof fn lemma_residues_of_push(slots: Seq<u64>, m: u64)
    requires
        slots.len() > 0,
    ensures
        residues_of(slots, m) == residues_of(slots.drop_last(), m).insert(
            (slots.last() % m) as int,
        ),
{
    let before = slots.drop_last();
    let whole = residues_of(slots, m);
    let grown = residues_of(before, m).insert((slots.last() % m) as int);
    assert forall|r: int| whole.contains(r) == grown.contains(r) by {
        if whole.contains(r) {
            let k = choose|k: int| 0 <= k < slots.len() && #[trigger] slots[k] % m == r;
            if k < before.len() {
                assert(before[k] % m == r);
            }
        }
        if grown.contains(r) {
            if residues_of(before, m).contains(r) {
                let k = choose|k: int| 0 <= k < before.len() && #[trigger] before[k] % m == r;
                assert(slots[k] % m == r);
            } else {
                assert(slots[slots.len() - 1] % m == r);
            }
        }
    }
    assert(whole =~= grown);
}

} // verus!
