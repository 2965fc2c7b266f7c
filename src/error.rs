//! The errors of the raffle ledger.

use vstd::prelude::*;

verus! {

/// Why an operation on the ledger was refused. Every refusal leaves the ledger as
/// it was.
#[derive(Clone, Copy, Debug, PartialEq, Eq)]
pub enum RaffleError {
    /// No raffle has the given id.
    UnknownRaffle,
    /// The raffle no longer takes entries.
    RaffleClosed,
    /// The raffle was closed before.
    AlreadyClosed,
    /// The attached payment does not cover the ticket price.
    InsufficientPayment,
    /// The ownership query for the prize failed.
    OwnershipCheckFailed,
    /// The prize is not held by the ledger's own account.
    OwnershipMismatch,
    /// Only the raffle's creator may close it.
    Unauthorized,
    /// The end time has not been reached and the end time is enforced.
    NotEnded,
    /// A raffle needs at least one prize.
    NoPrizes,
    /// The ticket price is below the storage overhead taken from every ticket.
    PriceBelowStorageCost,
    /// No creation is pending under the given ticket.
    UnknownCreation,
}

} // verus!
