//! A raffle ledger: paid ticket entries from unique participants, escrow of the
//! payments, a two-phase creation that checks prize ownership, and a draw that
//! pairs winners with prizes at close time.

pub mod draw;
pub mod error;
pub mod escrow;
pub mod prize;
pub mod raffle;
pub mod registry;

pub use draw::DrawPolicy;
pub use error::RaffleError;
pub use escrow::{ADD_PART_CALL_COST, STORAGE_COST};
pub use prize::{JsonToken, Winner};
pub use raffle::{EndTimePolicy, Entry, Raffle, RaffleState};
pub use registry::{Config, Counter, NewRaffleArgs, OwnershipQuery, RafflesMap};
