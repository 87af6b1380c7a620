//! A compact claim-distribution ledger: an inclusion-proof verifier, a
//! three-lane residue membership index that records which allocation slots
//! were redeemed, and the exactly-once claim transition that combines them.

pub mod counting;
pub mod error;
pub mod events;
pub mod instructions;
pub mod keccak;
pub mod laws;
pub mod merkle;
pub mod order;
pub mod residue;
pub mod state;
pub mod tree;

pub use crate::error::ErrorCode;
pub use crate::events::{
    AirdropClosed, AirdropInitialized, ClaimWindowUpdated, Claimed, MerkleRootUpdated,
};
pub use crate::instructions::{
    claim, close_airdrop, close_state, initialize, settle_claim, update_claim_window,
    update_merkle_root,
};
pub use crate::merkle::{hash_pair, keccak_leaf, verify_merkle_proof};
pub use crate::order::{digest_eq, digest_le};
pub use crate::residue::{
    check_residue_set, set_residue, MAX_CLAIMS, MODULUS_0, MODULUS_1, MODULUS_2,
};
pub use crate::state::{State, STATE_SPACE};
