//! Transaction request shapes as a remote caller hands them in: sparse
//! requests, requests with defaults filled in, and plain call requests,
//! with the lossless conversion back to the sparse form.

use crate::words::{Address, Word256};
use vstd::prelude::*;

verus! {

/// A transaction request as it arrives: every field optional.
#[derive(Debug, Clone, PartialEq)]
pub struct TransactionRequest {
    /// Sender.
    pub from: Option<Address>,
    /// Recipient.
    pub to: Option<Address>,
    /// Gas price.
    pub gas_price: Option<Word256>,
    /// Gas.
    pub gas: Option<Word256>,
    /// Value of transaction in wei.
    pub value: Option<Word256>,
    /// Additional data sent with the transaction.
    pub data: Option<Vec<u8>>,
    /// Transaction's nonce.
    pub nonce: Option<Word256>,
}

/// A transaction request with default values filled in.
#[derive(Debug, Clone, PartialEq)]
pub struct FilledTransactionRequest {
    /// Sender.
    pub from: Address,
    /// Whether the sender was filled by default value.
    pub used_default_from: bool,
    /// Recipient.
    pub to: Option<Address>,
    /// Gas price.
    pub gas_price: Word256,
    /// Gas.
    pub gas: Word256,
    /// Value of transaction in wei.
    pub value: Word256,
    /// Additional data sent with the transaction.
    pub data: Vec<u8>,
    /// Transaction's nonce.
    pub nonce: Option<Word256>,
}

/// A call request.
#[derive(Debug, Clone, PartialEq)]
pub struct CallRequest {
    /// From.
    pub from: Option<Address>,
    /// To.
    pub to: Option<Address>,
    /// Gas price.
    pub gas_price: Option<Word256>,
    /// Gas.
    pub gas: Option<Word256>,
    /// Value.
    pub value: Option<Word256>,
    /// Data.
    pub data: Option<Vec<u8>>,
    /// Nonce.
    pub nonce: Option<Word256>,
}

impl From<FilledTransactionRequest> for TransactionRequest {
    /// A filled request folds back into the sparse shape: every filled
    /// field becomes present.
    fn from(r: FilledTransactionRequest) -> (t: TransactionRequest)
        ensures
            t == (TransactionRequest {
                from: Option::Some(r.from),
                to: r.to,
                gas_price: Option::Some(r.gas_price),
                gas: Option::Some(r.gas),
                value: Option::Some(r.value),
                data: Option::Some(r.data),
                nonce: r.nonce,
            }),
    {
        TransactionRequest {
            from: Some(r.from),
            to: r.to,
            gas_price: Some(r.gas_price),
            gas: Some(r.gas),
            value: Some(r.value),
            data: Some(r.data),
            nonce: r.nonce,
        }
    }
}

impl vstd::std_specs::convert::FromSpecImpl<FilledTransactionRequest> for TransactionRequest {
    open spec fn obeys_from_spec() -> bool {
        true
    }

    open spec fn from_spec(r: FilledTransactionRequest) -> TransactionRequest {
        TransactionRequest {
            from: Option::Some(r.from),
            to: r.to,
            gas_price: Option::Some(r.gas_price),
            gas: Option::Some(r.gas),
            value: Option::Some(r.value),
            data: Option::Some(r.data),
            nonce: r.nonce,
        }
    }
}

} // verus!
