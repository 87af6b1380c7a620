//! Notifications handed back by the operations that succeed.

use vstd::prelude::*;

verus! {

/// A ledger was created.
#[derive(Clone, Copy, Debug, PartialEq, Eq)]
pub struct AirdropInitialized {
    pub authority: [u8; 32],
    pub snapshot_hash: [u8; 32],
    pub claim_start_ts: i64,
    pub claim_duration: i64,
}

/// A slot was redeemed: `amount` is owed to `wallet`.
#[derive(Clone, Copy, Debug, PartialEq, Eq)]
pub struct Claimed {
    pub wallet: [u8; 32],
    pub amount: u64,
    pub index: u64,
    pub timestamp: i64,
}

/// The authority closed the ledger.
#[derive(Clone, Copy, Debug, PartialEq, Eq)]
pub struct AirdropClosed {
    pub authority: [u8; 32],
    pub timestamp: i64,
}

/// The authority moved the claim window.
#[derive(Clone, Copy, Debug, PartialEq, Eq)]
pub struct ClaimWindowUpdated {
    pub new_start_ts: i64,
    pub new_duration: i64,
    pub timestamp: i64,
}

/// The authority published a new commitment.
#[derive(Clone, Copy, Debug, PartialEq, Eq)]
pub struct MerkleRootUpdated {
    pub new_root: [u8; 32],
    pub new_total_claims: u64,
    pub timestamp: i64,
}

} // verus!
