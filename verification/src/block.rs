//! Chained ledger entries. A block records its height, the content hash of
//! its predecessor, and its creation time; its own identity is the content
//! hash of its canonical byte form.

use crate::codec::{
    content_hash, content_hash_of, encode_word, le_bytes_of, lemma_encode_word_injective,
    lemma_le_bytes_injective, lemma_le_bytes_len, pow256, push_le_bytes, push_word,
};
use crate::words::Word256;
use vstd::prelude::*;

verus! {

/// One immutable ledger entry. `num` equals the block's index in the chain;
/// `prev` is the hash of the immediately preceding block (all-zero for
/// genesis); `time` is the wall-clock creation timestamp in seconds,
/// informational but part of the canonical byte form.
#[derive(Debug, Clone, Copy, PartialEq, Eq, Structural)]
pub struct Block {
    pub num: u32,
    pub prev: Word256,
    pub time: u64,
}

impl Block {
    /// The canonical byte form a block is hashed over: height, predecessor
    /// hash, then timestamp, each fixed-width little-endian.
    pub open spec fn encoding(self) -> Seq<u8> {
        le_bytes_of(self.num as nat, 4) + encode_word(self.prev) + le_bytes_of(self.time as nat, 8)
    }

    /// The block's content hash: the Keccak-256 digest of its canonical
    /// byte form, as a word.
    pub open spec fn hash_spec(self) -> Word256 {
        content_hash_of(self.encoding())
    }

    pub fn new(num: u32, prev: Word256, time: u64) -> (r: Block)
        ensures
            r == (Block { num, prev, time }),
    {
        Block { num, prev, time }
    }

    /// The canonical byte form, laid out by verified code.
    pub fn encode(&self) -> (r: Vec<u8>)
        ensures
            r@ == self.encoding(),
    {
        let mut out: Vec<u8> = Vec::new();
        push_le_bytes(&mut out, self.num as u128, 4);
        push_word(&mut out, &self.prev);
        push_le_bytes(&mut out, self.time as u128, 8);
        proof {
            assert(out@ =~= self.encoding());
        }
        out
    }

    /// The block's content hash.
    pub fn hash(&self) -> (r: Word256)
        ensures
            r == self.hash_spec(),
    {
        let bytes = self.encode();
        content_hash(&bytes)
    }

    pub fn block_number(&self) -> (r: u32)
        ensures
            r == self.num,
    {
        self.num
    }
}

/// Distinct blocks have distinct canonical byte forms: mutating any field of
/// a block changes the input its content hash is computed over.
pub proof fn lemma_block_encoding_injective(a: Block, b: Block)
    requires
        a.encoding() == b.encoding(),
    ensures
        a == b,
{
    reveal_with_fuel(pow256, 17);
    lemma_le_bytes_len(a.num as nat, 4);
    lemma_le_bytes_len(b.num as nat, 4);
    lemma_le_bytes_len(a.time as nat, 8);
    lemma_le_bytes_len(b.time as nat, 8);
    crate::codec::lemma_encode_word_len(a.prev);
    crate::codec::lemma_encode_word_len(b.prev);
    assert(le_bytes_of(a.num as nat, 4) =~= a.encoding().subrange(0, 4));
    assert(encode_word(a.prev) =~= a.encoding().subrange(4, 36));
    assert(le_bytes_of(a.time as nat, 8) =~= a.encoding().subrange(36, 44));
    assert(le_bytes_of(b.num as nat, 4) =~= b.encoding().subrange(0, 4));
    assert(encode_word(b.prev) =~= b.encoding().subrange(4, 36));
    assert(le_bytes_of(b.time as nat, 8) =~= b.encoding().subrange(36, 44));
    lemma_le_bytes_injective(a.num as nat, b.num as nat, 4);
    lemma_encode_word_injective(a.prev, b.prev);
    lemma_le_bytes_injective(a.time as nat, b.time as nat, 8);
}

} // verus!
