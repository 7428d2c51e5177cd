//! Transactions handed to the executor and the results it hands back, with
//! their canonical byte form and content identity.

use crate::codec::{content_hash, content_hash_of, copy_bytes, encode_word, le_bytes_of,
    push_le_bytes, push_word};
use crate::words::{Address, Word256};
use vstd::prelude::*;

verus! {

/// What the executor receives per transaction: a sender, a target (none for
/// contract creation), a value, gas bounds, a byte payload and a nonce.
#[derive(Debug, Clone, PartialEq)]
pub struct Transaction {
    pub sender: Address,
    pub target: Option<Address>,
    pub value: Word256,
    pub gas: Word256,
    pub gas_price: Word256,
    pub payload: Vec<u8>,
    pub nonce: Word256,
}

/// What the executor hands back: whether execution succeeded, the returned
/// bytes, and — for a creation — the address assigned to the new contract.
#[derive(Debug, Clone, PartialEq)]
pub struct ResultData {
    pub success: bool,
    pub data: Vec<u8>,
    pub contract: Option<Address>,
}

/// The canonical byte form of an address: its low 16 bytes, then its high 4,
/// little-endian.
pub open spec fn encode_address(a: Address) -> Seq<u8> {
    le_bytes_of(a.lo as nat, 16) + le_bytes_of(a.hi as nat, 4)
}

/// Appends the canonical 20-byte form of an address to `out`.
pub fn push_address(out: &mut Vec<u8>, a: &Address)
    ensures
        final(out)@ == old(out)@ + encode_address(*a),
{
    push_le_bytes(out, a.lo, 16);
    push_le_bytes(out, a.hi as u128, 4);
    proof {
        assert(out@ =~= old(out)@ + encode_address(*a));
    }
}

impl Transaction {
    /// The canonical byte form a transaction is hashed over: every field in
    /// a fixed order and width, the payload last behind its length.
    pub open spec fn encoding(self) -> Seq<u8> {
        encode_address(self.sender) + (match self.target {
            Option::None => seq![0u8] + le_bytes_of(0, 20),
            Option::Some(t) => seq![1u8] + encode_address(t),
        }) + encode_word(self.value) + encode_word(self.gas) + encode_word(self.gas_price)
            + encode_word(self.nonce) + le_bytes_of(self.payload@.len(), 8) + self.payload@
    }

    /// The transaction's content hash, its canonical identifier. Determined
    /// by the transaction's byte form alone: two byte-identical
    /// transactions always receive the same hash.
    pub open spec fn hash_spec(self) -> Word256 {
        content_hash_of(self.encoding())
    }

    /// A contract-creation transaction: no target; the payload carries the
    /// code and constructor input.
    pub fn make_create(
        sender: Address,
        value: Word256,
        gas: Word256,
        gas_price: Word256,
        payload: Vec<u8>,
        nonce: Word256,
    ) -> (r: Transaction)
        ensures
            r == (Transaction {
                sender,
                target: Option::<Address>::None,
                value,
                gas,
                gas_price,
                payload,
                nonce,
            }),
    {
        Transaction { sender, target: None, value, gas, gas_price, payload, nonce }
    }

    /// A call transaction against an existing account.
    pub fn make_call(
        sender: Address,
        target: Address,
        value: Word256,
        gas: Word256,
        gas_price: Word256,
        payload: Vec<u8>,
        nonce: Word256,
    ) -> (r: Transaction)
        ensures
            r == (Transaction {
                sender,
                target: Option::Some(target),
                value,
                gas,
                gas_price,
                payload,
                nonce,
            }),
    {
        Transaction { sender, target: Some(target), value, gas, gas_price, payload, nonce }
    }

    /// The canonical byte form, laid out by verified code.
    pub fn encode(&self) -> (r: Vec<u8>)
        ensures
            r@ == self.encoding(),
    {
        let mut out: Vec<u8> = Vec::new();
        push_address(&mut out, &self.sender);
        match &self.target {
            None => {
                out.push(0u8);
                push_le_bytes(&mut out, 0, 20);
            },
            Some(t) => {
                out.push(1u8);
                push_address(&mut out, t);
            },
        }
        push_word(&mut out, &self.value);
        push_word(&mut out, &self.gas);
        push_word(&mut out, &self.gas_price);
        push_word(&mut out, &self.nonce);
        push_le_bytes(&mut out, self.payload.len() as u128, 8);
        let mut i: usize = 0;
        let ghost before = out@;
        while i < self.payload.len()
            invariant
                i <= self.payload@.len(),
                out@ == before + self.payload@.subrange(0, i as int),
            decreases self.payload@.len() - i,
        {
            out.push(self.payload[i]);
            proof {
                assert(before + self.payload@.subrange(0, i as int) + seq![self.payload@[i as int]]
                    =~= before + self.payload@.subrange(0, i + 1));
            }
            i = i + 1;
        }
        proof {
            assert(self.payload@.subrange(0, self.payload@.len() as int) =~= self.payload@);
            assert(out@ =~= self.encoding());
        }
        out
    }

    /// The transaction's content hash.
    pub fn hash(&self) -> (r: Word256)
        ensures
            r == self.hash_spec(),
    {
        let bytes = self.encode();
        content_hash(&bytes)
    }
}

/// Two transactions that agree field for field — in particular, two
/// byte-identical ones.
pub open spec fn tx_like(a: Transaction, b: Transaction) -> bool {
    &&& a.sender == b.sender
    &&& a.target == b.target
    &&& a.value == b.value
    &&& a.gas == b.gas
    &&& a.gas_price == b.gas_price
    &&& a.nonce == b.nonce
    &&& a.payload@ == b.payload@
}

/// Two execution results that agree field for field.
pub open spec fn rd_like(a: ResultData, b: ResultData) -> bool {
    &&& a.success == b.success
    &&& a.contract == b.contract
    &&& a.data@ == b.data@
}

/// Transactions that agree field for field have the same canonical byte
/// form, and so the same content hash.
pub proof fn lemma_tx_hash_deterministic(a: Transaction, b: Transaction)
    requires
        tx_like(a, b),
    ensures
        a.encoding() == b.encoding(),
        a.hash_spec() == b.hash_spec(),
{
    assert(a.encoding() =~= b.encoding());
}

/// An owned copy of a transaction, equal to it field for field.
pub fn dup_transaction(t: &Transaction) -> (r: Transaction)
    ensures
        tx_like(r, *t),
{
    Transaction {
        sender: t.sender,
        target: t.target,
        value: t.value,
        gas: t.gas,
        gas_price: t.gas_price,
        payload: copy_bytes(&t.payload),
        nonce: t.nonce,
    }
}

/// An owned copy of an execution result, equal to it field for field.
pub fn dup_result_data(d: &ResultData) -> (r: ResultData)
    ensures
        rd_like(r, *d),
{
    ResultData { success: d.success, data: copy_bytes(&d.data), contract: d.contract }
}

} // verus!
