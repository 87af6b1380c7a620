//! The ways an operation on the ledger can be refused.

use vstd::prelude::*;

verus! {

/// Why an operation was refused. Every refusal leaves the ledger as it was.
#[derive(Clone, Copy, Debug, PartialEq, Eq, Structural)]
pub enum ErrorCode {
    /// The current time lies outside the claim window.
    ClaimWindowClosed,
    /// One of the slot's residues is already marked.
    AlreadyClaimed,
    /// The caller is not the ledger's authority.
    Unauthorized,
    /// The window's duration is not positive.
    InvalidDuration,
    /// The inclusion proof does not lead to the commitment.
    InvalidProof,
    /// The slot index or the slot count is out of range.
    InvalidIndex,
    /// The authority has closed the ledger.
    ClaimClosed,
}

impl ErrorCode {
    /// The text shown to a user for this refusal.
    pub fn message(&self) -> (text: &'static str)
        ensures
            text@ == match *self {
                ErrorCode::ClaimWindowClosed => "Airdrop claim window is not open."@,
                ErrorCode::AlreadyClaimed => "Airdrop already claimed."@,
                ErrorCode::Unauthorized => "Unauthorized."@,
                ErrorCode::InvalidDuration => "Invalid duration."@,
                ErrorCode::InvalidProof => "Invalid proof."@,
                ErrorCode::InvalidIndex => "Invalid index."@,
                ErrorCode::ClaimClosed => "Airdrop is closed."@,
            },
    {
        match self {
            ErrorCode::ClaimWindowClosed => "Airdrop claim window is not open.",
            ErrorCode::AlreadyClaimed => "Airdrop already claimed.",
            ErrorCode::Unauthorized => "Unauthorized.",
            ErrorCode::InvalidDuration => "Invalid duration.",
            ErrorCode::InvalidProof => "Invalid proof.",
            ErrorCode::InvalidIndex => "Invalid index.",
            ErrorCode::ClaimClosed => "Airdrop is closed.",
        }
    }
}

} // verus!
