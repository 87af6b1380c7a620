//! The operations on a ledger: creation, the claim transition, and the
//! authority's controls.
//!
//! Every operation takes the caller's identity and the current time as plain
//! values and hands back the notification to publish. An operation that is
//! refused leaves the ledger exactly as it was.

use crate::error::ErrorCode;
use crate::events::{
    AirdropClosed, AirdropInitialized, ClaimWindowUpdated, Claimed, MerkleRootUpdated,
};
use crate::merkle::{digests, keccak_leaf, leaf_digest, merkle_verifies, verify_merkle_proof};
use crate::order::digest_eq;
use crate::residue::{collides, lemma_zero_lane_unmarked, MAX_CLAIMS};
use crate::state::{lemma_unmarked_has_no_member, State};
use vstd::prelude::*;

verus! {

/// Why creating a ledger with these parameters is refused, if it is.
pub open spec fn initialize_rejection(claim_duration: i64, total_claims: u64) -> Option<
    ErrorCode,
> {
    if claim_duration <= 0 {
        Some(ErrorCode::InvalidDuration)
    } else if total_claims > MAX_CLAIMS {
        Some(ErrorCode::InvalidIndex)
    } else {
        None
    }
}

/// Why a claim is refused before its proof is looked at, if it is: the
/// ledger is closed, the time is outside the window, or the slot is out of
/// range, in this order.
pub open spec fn early_rejection(s: State, now: i64, index: u64) -> Option<ErrorCode> {
    if s.claim_closed {
        Some(ErrorCode::ClaimClosed)
    } else if !s.window_open(now) {
        Some(ErrorCode::ClaimWindowClosed)
    } else if index >= s.total_claims {
        Some(ErrorCode::InvalidIndex)
    } else {
        None
    }
}

/// Why a claim is refused, if it is. `proof_ok` tells whether the inclusion
/// proof leads to the commitment. The checks come in this order: closed
/// ledger, window, slot range, proof, membership.
pub open spec fn claim_rejection(s: State, now: i64, index: u64, proof_ok: bool) -> Option<
    ErrorCode,
> {
    if early_rejection(s, now, index) is Some {
        early_rejection(s, now, index)
    } else if !proof_ok {
        Some(ErrorCode::InvalidProof)
    } else if s.member(index) {
        Some(ErrorCode::AlreadyClaimed)
    } else {
        None
    }
}

/// Why moving the window is refused, if it is.
pub open spec fn window_update_rejection(s: State, caller: [u8; 32], new_duration: i64) -> Option<
    ErrorCode,
> {
    if caller@ != s.authority@ {
        Some(ErrorCode::Unauthorized)
    } else if new_duration <= 0 {
        Some(ErrorCode::InvalidDuration)
    } else {
        None
    }
}

/// Why publishing a new commitment is refused, if it is.
pub open spec fn root_update_rejection(s: State, caller: [u8; 32], new_total_claims: u64) -> Option<
    ErrorCode,
> {
    if caller@ != s.authority@ {
        Some(ErrorCode::Unauthorized)
    } else if new_total_claims > MAX_CLAIMS {
        Some(ErrorCode::InvalidIndex)
    } else {
        None
    }
}

/// Creates a ledger: open, with no residue marked.
pub fn initialize(
    authority: [u8; 32],
    snapshot_hash: [u8; 32],
    claim_start_ts: i64,
    claim_duration: i64,
    merkle_root: [u8; 32],
    total_claims: u64,
) -> (result: Result<(State, AirdropInitialized), ErrorCode>)
    ensures
        match result {
            Ok((state, event)) => {
                &&& initialize_rejection(claim_duration, total_claims) is None
                &&& state.authority == authority
                &&& state.snapshot_hash == snapshot_hash
                &&& state.claim_start_ts == claim_start_ts
                &&& state.claim_duration == claim_duration
                &&& !state.claim_closed
                &&& state.merkle_root == merkle_root
                &&& state.total_claims == total_claims
                &&& state.claim_residues0@ == Seq::new(122, |i: int| 0u8)
                &&& state.claim_residues1@ == Seq::new(39, |i: int| 0u8)
                &&& state.claim_residues2@ == Seq::new(76, |i: int| 0u8)
                &&& state.unmarked()
                &&& forall|index: u64| !#[trigger] state.member(index)
                &&& state.well_formed()
                &&& event == (AirdropInitialized {
                    authority,
                    snapshot_hash,
                    claim_start_ts,
                    claim_duration,
                })
            },
            Err(e) => initialize_rejection(claim_duration, total_claims) == Some(e),
        },
{
    if claim_duration <= 0 {
        return Err(ErrorCode::InvalidDuration);
    }
    if total_claims > MAX_CLAIMS {
        return Err(ErrorCode::InvalidIndex);
    }
    let state = State {
        authority,
        snapshot_hash,
        claim_start_ts,
        claim_duration,
        claim_closed: false,
        merkle_root,
        total_claims,
        claim_residues0: [0u8;122],
        claim_residues1: [0u8;39],
        claim_residues2: [0u8;76],
    };
    proof {
        lemma_zero_lane_unmarked(state.claim_residues0@);
        lemma_zero_lane_unmarked(state.claim_residues1@);
        lemma_zero_lane_unmarked(state.claim_residues2@);
        assert forall|index: u64| !#[trigger] state.member(index) by {
            lemma_unmarked_has_no_member(state, index);
        }
    }
    Ok((state, AirdropInitialized { authority, snapshot_hash, claim_start_ts, claim_duration }))
}

/// Whether a claim that found the ledger as `before` may end with `result`
/// and the ledger as `after`: refused for the first reason that applies and
/// nothing changed, or accepted with the slot recorded and the recipient's
/// notification handed back.
pub open spec fn claim_outcome(
    before: State,
    wallet: [u8; 32],
    now: i64,
    index: u64,
    amount: u64,
    proof_ok: bool,
    result: Result<Claimed, ErrorCode>,
    after: State,
) -> bool {
    match result {
        Ok(event) => {
            &&& claim_rejection(before, now, index, proof_ok) is None
            &&& before.recorded_as(index, after)
            &&& event == (Claimed { wallet, amount, index, timestamp: now })
        },
        Err(e) => {
            &&& claim_rejection(before, now, index, proof_ok) == Some(e)
            &&& after == before
        },
    }
}

/// Runs the checks of a claim that come before its proof.
fn early_checks(state: &State, now: i64, index: u64) -> (refusal: Option<ErrorCode>)
    ensures
        refusal == early_rejection(*state, now, index),
{
    if state.claim_closed {
        Some(ErrorCode::ClaimClosed)
    } else if !state.is_window_open(now) {
        Some(ErrorCode::ClaimWindowClosed)
    } else if index >= state.total_claims {
        Some(ErrorCode::InvalidIndex)
    } else {
        None
    }
}

/// Finishes a claim that no early check refuses: turns it away on a failed
/// proof or a slot that is a member already, and records the slot
/// otherwise.
fn redeem(
    state: &mut State,
    wallet: [u8; 32],
    now: i64,
    index: u64,
    amount: u64,
    proof_ok: bool,
) -> (result: Result<Claimed, ErrorCode>)
    requires
        early_rejection(*old(state), now, index) is None,
    ensures
        claim_outcome(*old(state), wallet, now, index, amount, proof_ok, result, *final(state)),
        result is Ok ==> final(state).member(index),
        result is Ok ==> forall|other: u64|
            #[trigger] final(state).member(other) == (old(state).member(other) || collides(
                index,
                other,
            )),
        old(state).marks_kept_by(*final(state)),
        old(state).well_formed() ==> final(state).well_formed(),
{
    if !proof_ok {
        return Err(ErrorCode::InvalidProof);
    }
    if !state.try_record(index) {
        return Err(ErrorCode::AlreadyClaimed);
    }
    Ok(Claimed { wallet, amount, index, timestamp: now })
}

/// The claim transition for a proof whose verdict is already known.
///
/// Runs every check of a claim in order, with `proof_ok` standing for the
/// outcome of the inclusion proof, and marks the slot when none refuses.
/// The membership test and the marking happen in this one call.
pub fn settle_claim(
    state: &mut State,
    wallet: [u8; 32],
    now: i64,
    index: u64,
    amount: u64,
    proof_ok: bool,
) -> (result: Result<Claimed, ErrorCode>)
    ensures
        claim_outcome(*old(state), wallet, now, index, amount, proof_ok, result, *final(state)),
        result is Ok ==> final(state).member(index),
        result is Ok ==> forall|other: u64|
            #[trigger] final(state).member(other) == (old(state).member(other) || collides(
                index,
                other,
            )),
        old(state).marks_kept_by(*final(state)),
        old(state).well_formed() ==> final(state).well_formed(),
{
    match early_checks(state, now, index) {
        Some(refusal) => Err(refusal),
        None => redeem(state, wallet, now, index, amount, proof_ok),
    }
}

/// Redeems slot `index` for `wallet`.
///
/// Once the ledger is open, the time inside the window and the slot in
/// range, derives the leaf of `(index, wallet, amount)`, checks `proof`
/// against the ledger's commitment, and tests and marks the slot. On
/// success the returned notification says what is owed to whom; the caller
/// then moves the funds.
pub fn claim(
    state: &mut State,
    wallet: [u8; 32],
    now: i64,
    index: u64,
    amount: u64,
    proof: Vec<[u8; 32]>,
) -> (result: Result<Claimed, ErrorCode>)
    ensures
        claim_outcome(
            *old(state),
            wallet,
            now,
            index,
            amount,
            merkle_verifies(
                leaf_digest(index, wallet@, amount),
                digests(proof@),
                old(state).merkle_root@,
            ),
            result,
            *final(state),
        ),
        result is Ok ==> final(state).member(index),
        result is Ok ==> forall|other: u64|
            #[trigger] final(state).member(other) == (old(state).member(other) || collides(
                index,
                other,
            )),
        old(state).marks_kept_by(*final(state)),
        old(state).well_formed() ==> final(state).well_formed(),
{
    match early_checks(state, now, index) {
        Some(refusal) => Err(refusal),
        None => {
            let leaf = keccak_leaf(index, &wallet, amount);
            let proof_ok = verify_merkle_proof(&leaf, &proof, &state.merkle_root);
            redeem(state, wallet, now, index, amount, proof_ok)
        },
    }
}

/// Closes the ledger: no claim goes through until the window is moved.
pub fn close_airdrop(state: &mut State, caller: [u8; 32], now: i64) -> (result: Result<
    AirdropClosed,
    ErrorCode,
>)
    ensures
        match result {
            Ok(event) => {
                &&& caller@ == old(state).authority@
                &&& *final(state) == (State { claim_closed: true, ..*old(state) })
                &&& event == (AirdropClosed { authority: old(state).authority, timestamp: now })
            },
            Err(e) => {
                &&& caller@ != old(state).authority@
                &&& e == ErrorCode::Unauthorized
                &&& *final(state) == *old(state)
            },
        },
        old(state).marks_kept_by(*final(state)),
        old(state).well_formed() ==> final(state).well_formed(),
{
    if !digest_eq(&caller, &state.authority) {
        return Err(ErrorCode::Unauthorized);
    }
    state.claim_closed = true;
    Ok(AirdropClosed { authority: state.authority, timestamp: now })
}

/// Moves the claim window and reopens the ledger.
pub fn update_claim_window(
    state: &mut State,
    caller: [u8; 32],
    new_start_ts: i64,
    new_duration: i64,
    now: i64,
) -> (result: Result<ClaimWindowUpdated, ErrorCode>)
    ensures
        match result {
            Ok(event) => {
                &&& window_update_rejection(*old(state), caller, new_duration) is None
                &&& *final(state) == (State {
                    claim_closed: false,
                    claim_start_ts: new_start_ts,
                    claim_duration: new_duration,
                    ..*old(state)
                })
                &&& event == (ClaimWindowUpdated { new_start_ts, new_duration, timestamp: now })
            },
            Err(e) => {
                &&& window_update_rejection(*old(state), caller, new_duration) == Some(e)
                &&& *final(state) == *old(state)
            },
        },
        old(state).marks_kept_by(*final(state)),
        old(state).well_formed() ==> final(state).well_formed(),
{
    if !digest_eq(&caller, &state.authority) {
        return Err(ErrorCode::Unauthorized);
    }
    if new_duration <= 0 {
        return Err(ErrorCode::InvalidDuration);
    }
    state.claim_closed = false;
    state.claim_start_ts = new_start_ts;
    state.claim_duration = new_duration;
    Ok(ClaimWindowUpdated { new_start_ts, new_duration, timestamp: now })
}

/// Publishes a new commitment and slot count. The residue lanes stay as
/// they are: slots marked under the earlier commitment remain marked.
pub fn update_merkle_root(
    state: &mut State,
    caller: [u8; 32],
    new_root: [u8; 32],
    new_total_claims: u64,
    now: i64,
) -> (result: Result<MerkleRootUpdated, ErrorCode>)
    ensures
        match result {
            Ok(event) => {
                &&& root_update_rejection(*old(state), caller, new_total_claims) is None
                &&& *final(state) == (State {
                    merkle_root: new_root,
                    total_claims: new_total_claims,
                    ..*old(state)
                })
                &&& event == (MerkleRootUpdated { new_root, new_total_claims, timestamp: now })
            },
            Err(e) => {
                &&& root_update_rejection(*old(state), caller, new_total_claims) == Some(e)
                &&& *final(state) == *old(state)
            },
        },
        old(state).marks_kept_by(*final(state)),
        old(state).well_formed() ==> final(state).well_formed(),
{
    if !digest_eq(&caller, &state.authority) {
        return Err(ErrorCode::Unauthorized);
    }
    if new_total_claims > MAX_CLAIMS {
        return Err(ErrorCode::InvalidIndex);
    }
    state.merkle_root = new_root;
    state.total_claims = new_total_claims;
    Ok(MerkleRootUpdated { new_root, new_total_claims, timestamp: now })
}

/// Decides whether `caller` may tear the ledger down. On `Ok` the caller
/// releases the record's storage; the ledger itself is not touched here.
pub fn close_state(state: &State, caller: [u8; 32]) -> (result: Result<(), ErrorCode>)
    ensures
        result == if caller@ == state.authority@ {
            Ok::<(), ErrorCode>(())
        } else {
            Err::<(), ErrorCode>(ErrorCode::Unauthorized)
        },
{
    if !digest_eq(&caller, &state.authority) {
        return Err(ErrorCode::Unauthorized);
    }
    Ok(())
}

} // verus!
