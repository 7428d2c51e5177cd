use durian_state::block::Block;
use durian_state::request::{FilledTransactionRequest, TransactionRequest};
use durian_state::transaction::Transaction;
use durian_state::words::{Address, Word256};
use sha3::{Digest, Keccak256};

fn word_from_digest(bytes: &[u8]) -> Word256 {
    let mut lo = [0u8; 16];
    let mut hi = [0u8; 16];
    lo.copy_from_slice(&bytes[0..16]);
    hi.copy_from_slice(&bytes[16..32]);
    Word256 { lo: u128::from_le_bytes(lo), hi: u128::from_le_bytes(hi) }
}

#[test]
fn block_hash_is_keccak_of_canonical_bytes() {
    let b = Block::new(3, Word256::from_u64(0x55aa), 42);
    let enc = b.encode();
    // height (4 bytes) + predecessor hash (32) + timestamp (8)
    assert_eq!(enc.len(), 44);
    assert_eq!(&enc[0..4], &[3, 0, 0, 0]);
    let expected = word_from_digest(&Keccak256::digest(&enc));
    assert_eq!(b.hash(), expected);
}

#[test]
fn block_hash_changes_with_any_field() {
    let b = Block::new(5, Word256::from_u64(77), 1000);
    let h = b.hash();
    let mut b2 = b;
    b2.num = 6;
    assert_ne!(b2.hash(), h);
    let mut b3 = b;
    b3.prev = Word256::from_u64(78);
    assert_ne!(b3.hash(), h);
    let mut b4 = b;
    b4.time = 1001;
    assert_ne!(b4.hash(), h);
}

#[test]
fn block_hash_is_deterministic() {
    let a = Block::new(9, Word256::from_u64(0xdead), 7);
    let b = Block::new(9, Word256::from_u64(0xdead), 7);
    assert_eq!(a.hash(), b.hash());
}

#[test]
fn transaction_hash_matches_keccak_and_is_deterministic() {
    let tx = Transaction::make_create(
        Address::from_u64(1),
        Word256::zero(),
        Word256::from_u64(1000000),
        Word256::zero(),
        vec![0xde, 0xad, 0xbe, 0xef],
        Word256::zero(),
    );
    let expected = word_from_digest(&Keccak256::digest(&tx.encode()));
    assert_eq!(tx.hash(), expected);
    let twin = Transaction::make_create(
        Address::from_u64(1),
        Word256::zero(),
        Word256::from_u64(1000000),
        Word256::zero(),
        vec![0xde, 0xad, 0xbe, 0xef],
        Word256::zero(),
    );
    assert_eq!(tx.hash(), twin.hash());
}

#[test]
fn transaction_hash_distinguishes_target_and_payload() {
    let base = Transaction::make_call(
        Address::from_u64(1),
        Address::from_u64(2),
        Word256::zero(),
        Word256::from_u64(5),
        Word256::zero(),
        vec![1, 2, 3],
        Word256::zero(),
    );
    let other_target = Transaction::make_call(
        Address::from_u64(1),
        Address::from_u64(3),
        Word256::zero(),
        Word256::from_u64(5),
        Word256::zero(),
        vec![1, 2, 3],
        Word256::zero(),
    );
    let other_payload = Transaction::make_call(
        Address::from_u64(1),
        Address::from_u64(2),
        Word256::zero(),
        Word256::from_u64(5),
        Word256::zero(),
        vec![1, 2, 4],
        Word256::zero(),
    );
    assert_ne!(base.hash(), other_target.hash());
    assert_ne!(base.hash(), other_payload.hash());
}

#[test]
fn word_increment_carries() {
    assert_eq!(Word256::zero().inc(), Word256::from_u64(1));
    let edge = Word256 { lo: u128::MAX, hi: 0 };
    assert_eq!(edge.inc(), Word256 { lo: 0, hi: 1 });
}

#[test]
fn filled_request_folds_back_to_sparse() {
    let filled = FilledTransactionRequest {
        from: Address::from_u64(10),
        used_default_from: false,
        to: Some(Address::from_u64(20)),
        gas_price: Word256::from_u64(1),
        gas: Word256::from_u64(2),
        value: Word256::from_u64(3),
        data: vec![9, 9],
        nonce: None,
    };
    let sparse = TransactionRequest::from(filled);
    assert_eq!(sparse.from, Some(Address::from_u64(10)));
    assert_eq!(sparse.to, Some(Address::from_u64(20)));
    assert_eq!(sparse.gas_price, Some(Word256::from_u64(1)));
    assert_eq!(sparse.gas, Some(Word256::from_u64(2)));
    assert_eq!(sparse.value, Some(Word256::from_u64(3)));
    assert_eq!(sparse.data, Some(vec![9, 9]));
    assert_eq!(sparse.nonce, None);
}
