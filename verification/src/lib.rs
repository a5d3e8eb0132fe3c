//! A verified ballot-tallying state machine.
//!
//! An administrator opens a poll with a fixed candidate list and a voting
//! time window; each identity casts at most one vote; tallies are kept with
//! overflow-checked arithmetic. The ledger module provides the
//! insert-if-absent record store that makes a second ballot for the same
//! (poll, voter) pair structurally impossible.

pub mod error;
pub mod identity;
pub mod laws;
pub mod ledger;
pub mod poll;

pub use error::LedgerError;
pub use error::VotingError;
pub use identity::Identity;
pub use ledger::Ledger;
pub use ledger::Voter;
pub use poll::Poll;
