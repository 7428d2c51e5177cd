//! Fixed-width machine words: 256-bit unsigned values (balances, nonces,
//! storage keys and values, content hashes) and 160-bit account addresses.
//! Each is held as plain unsigned integers and viewed in specifications as a
//! single natural number.

use vstd::prelude::*;

verus! {

/// An unsigned 256-bit value, split into a low and a high 128-bit half.
/// Used for balances, nonces, storage keys, storage values and content
/// hashes alike.
#[derive(Debug, Clone, Copy, PartialEq, Eq, Structural)]
pub struct Word256 {
    pub lo: u128,
    pub hi: u128,
}

/// A 160-bit account address, split into a low 128-bit and a high 32-bit
/// part.
#[derive(Debug, Clone, Copy, PartialEq, Eq, Structural)]
pub struct Address {
    pub lo: u128,
    pub hi: u32,
}

impl View for Word256 {
    type V = nat;

    open spec fn view(&self) -> nat {
        (self.lo + self.hi * 0x1_0000_0000_0000_0000_0000_0000_0000_0000) as nat
    }
}

impl View for Address {
    type V = nat;

    open spec fn view(&self) -> nat {
        (self.lo + self.hi * 0x1_0000_0000_0000_0000_0000_0000_0000_0000) as nat
    }
}

impl Word256 {
    /// The all-zero word.
    pub fn zero() -> (r: Word256)
        ensures
            r@ == 0,
    {
        Word256 { lo: 0, hi: 0 }
    }

    /// A word holding a small value.
    pub fn from_u64(v: u64) -> (r: Word256)
        ensures
            r@ == v,
    {
        Word256 { lo: v as u128, hi: 0 }
    }

    /// The largest representable word value, `2^256 - 1`.
    pub open spec fn max_value() -> nat {
        (0x1_0000_0000_0000_0000_0000_0000_0000_0000_0000_0000_0000_0000_0000_0000_0000_0000
            - 1) as nat
    }

    /// The word one greater than this one. Counters (nonces) grow through
    /// this; the caller rules out wrap-around.
    pub fn inc(&self) -> (r: Word256)
        requires
            self@ < Word256::max_value(),
        ensures
            r@ == self@ + 1,
    {
        if self.lo == u128::MAX {
            Word256 { lo: 0, hi: self.hi + 1 }
        } else {
            Word256 { lo: self.lo + 1, hi: self.hi }
        }
    }
}

impl Address {
    /// An address holding a small value; distinct inputs give distinct
    /// addresses.
    pub fn from_u64(v: u64) -> (r: Address)
        ensures
            r@ == v,
    {
        Address { lo: v as u128, hi: 0 }
    }
}

} // verus!
