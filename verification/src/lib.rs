//! Account/state layer of a minimal blockchain execution environment: a
//! content-hash-chained ledger of blocks and accounts, and a transient,
//! lazily populated, dirty-tracked overlay cache that stages mutations to
//! balances, nonces, code and storage slots before they are committed back
//! to the ledger.

pub mod account;
pub mod block;
pub mod blockchain;
pub mod codec;
pub mod laws;
pub mod request;
pub mod state;
pub mod transaction;
pub mod words;

use crate::words::{Address, Word256};
use vstd::prelude::*;

verus! {

/// Errors surfaced by the ledger and the overlay.
#[derive(Debug, Clone, Copy, PartialEq, Eq, Structural)]
pub enum Error {
    /// The address has no matching account where one was required.
    InvalidAddress(Address),
    /// No value has ever been written for the queried storage key.
    InvalidStorageKey(Word256),
    /// An account creation was attempted at an address already present.
    AccountAlreadyExists(Address),
}

} // verus!
