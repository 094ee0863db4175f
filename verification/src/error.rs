//! Why a command or query is rejected.
//!
//! Every failure aborts the whole execution: the host discards all writes
//! made so far, so a handler that returns an error leaves the state exactly
//! as it found it. Failures of the host itself (store or transfer) arise
//! below this core and never reach these variants.

use vstd::prelude::*;

verus! {

/// The failure kinds a handler can report.
#[derive(Clone, Copy, Debug, PartialEq, Eq)]
pub enum ContractError {
    /// No record exists under the given token identifier.
    NotFound,
    /// The owner handed to mint failed the host's address validation.
    InvalidAddress,
    /// No attached coin carries the accepted payment denomination.
    NoFundsSent,
    /// The attached payment is below the asking price.
    InsufficientFunds,
    /// The sender does not own the token it tried to reprice.
    NotOwner,
}

impl ContractError {
    /// The human-readable message reported to the caller.
    pub fn message(&self) -> (r: &'static str)
        ensures
            match self {
                ContractError::NotFound => r@ == "Token not found"@,
                ContractError::InvalidAddress => r@ == "Invalid owner address"@,
                ContractError::NoFundsSent => r@ == "No uastra sent"@,
                ContractError::InsufficientFunds => r@ == "Insufficient funds"@,
                ContractError::NotOwner => r@ == "Not the owner"@,
            },
    {
        match self {
            ContractError::NotFound => "Token not found",
            ContractError::InvalidAddress => "Invalid owner address",
            ContractError::NoFundsSent => "No uastra sent",
            ContractError::InsufficientFunds => "Insufficient funds",
            ContractError::NotOwner => "Not the owner",
        }
    }
}

} // verus!
