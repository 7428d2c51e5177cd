use durian_state::blockchain::{Alias, Blockchain};
use durian_state::state::State;
use durian_state::words::{Address, Word256};
use durian_state::Error;

#[test]
fn lazy_default_for_untouched_address() {
    let mut bc = Blockchain::new();
    let mut st = State::new();
    let ghostly = Address::from_u64(0xfeed);
    // A never-seen address reads as the default account, not an error.
    assert_eq!(st.balance(&bc, &ghostly), Ok(Word256::zero()));
    assert_eq!(st.nonce(&bc, &ghostly), Ok(Word256::zero()));
    // The read created the cache entry, not a write: the flush stays empty.
    assert_eq!(st.update_state(&mut bc), Ok(()));
    assert!(!bc.exist(&ghostly));
    assert_eq!(bc.accounts.len(), 5);
}

#[test]
fn reads_are_cached_lazily() {
    let mut bc = Blockchain::new();
    let mut st = State::new();
    let alice = bc.address("alice");
    assert_eq!(st.accounts.len(), 0);
    assert_eq!(st.balance(&bc, &alice), Ok(Word256::from_u64(1000000)));
    assert_eq!(st.accounts.len(), 1);
    // A repeated read serves the cache and adds nothing.
    assert_eq!(st.balance(&bc, &alice), Ok(Word256::from_u64(1000000)));
    assert_eq!(st.accounts.len(), 1);
}

#[test]
fn dirty_write_round_trip() {
    let mut bc = Blockchain::new();
    let mut st = State::new();
    let alice = bc.address("alice");
    let k = Word256::from_u64(3);
    let v = Word256::from_u64(99);
    st.set_storage(&bc, &alice, &k, &v);
    // Before the flush the ledger still knows nothing of the slot.
    assert_eq!(bc.storage_at(&alice, &k), Err(Error::InvalidStorageKey(k)));
    assert_eq!(st.storage_at(&bc, &alice, &k), Ok(v));
    st.update_state(&mut bc).unwrap();
    assert_eq!(bc.storage_at(&alice, &k), Ok(v));
}

#[test]
fn overlay_storage_miss_resolves_to_zero() {
    let mut bc = Blockchain::new();
    let mut st = State::new();
    let alice = bc.address("alice");
    let k = Word256::from_u64(1234);
    // No hard error reaches the caller: a miss is the logical zero.
    assert_eq!(st.storage_at(&bc, &alice, &k), Ok(Word256::zero()));
    // And it was cached clean: the next flush writes nothing.
    st.update_state(&mut bc).unwrap();
    assert_eq!(bc.storage_at(&alice, &k), Err(Error::InvalidStorageKey(k)));
}

#[test]
fn commit_idempotence() {
    let mut bc = Blockchain::new();
    let mut st = State::new();
    let alice = bc.address("alice");
    let k = Word256::from_u64(5);
    let v = Word256::from_u64(50);
    st.set_balance(&bc, &alice, &Word256::from_u64(200));
    st.set_storage(&bc, &alice, &k, &v);
    assert_eq!(st.update_state(&mut bc), Ok(()));
    let balance_after = bc.get_balance(&alice);
    let storage_after = bc.storage_at(&alice, &k);
    let accounts_after = bc.accounts.len();
    // A second flush with no intervening writes changes nothing.
    assert_eq!(st.update_state(&mut bc), Ok(()));
    assert_eq!(bc.get_balance(&alice), balance_after);
    assert_eq!(bc.storage_at(&alice, &k), storage_after);
    assert_eq!(bc.accounts.len(), accounts_after);
}

#[test]
fn isolation_between_overlays() {
    let mut bc = Blockchain::new();
    let mut o1 = State::new();
    let mut o2 = State::new();
    let alice = bc.address("alice");
    let hundred = Word256::from_u64(1000000);
    assert_eq!(o1.balance(&bc, &alice), Ok(hundred));
    assert_eq!(o2.balance(&bc, &alice), Ok(hundred));
    // O1 stages a lower balance locally; O2 still observes the ledger's.
    o1.set_balance(&bc, &alice, &Word256::from_u64(50));
    assert_eq!(o1.balance(&bc, &alice), Ok(Word256::from_u64(50)));
    assert_eq!(o2.balance(&bc, &alice), Ok(hundred));
    assert_eq!(bc.get_balance(&alice), hundred);
    // Only after O1 flushes does a fresh overlay observe the new value;
    // O2's own snapshot stays what it first read.
    o1.update_state(&mut bc).unwrap();
    assert_eq!(bc.get_balance(&alice), Word256::from_u64(50));
    assert_eq!(o2.balance(&bc, &alice), Ok(hundred));
    let mut o3 = State::new();
    assert_eq!(o3.balance(&bc, &alice), Ok(Word256::from_u64(50)));
}

#[test]
fn flush_creates_contract_account() {
    let mut bc = Blockchain::new();
    let mut st = State::new();
    let fresh = Address::from_u64(0xc0de);
    st.init_code(&bc, &fresh, vec![0x60, 0x60]);
    let k = Word256::from_u64(1);
    let v = Word256::from_u64(2);
    st.set_storage(&bc, &fresh, &k, &v);
    assert!(!bc.exist(&fresh));
    st.update_state(&mut bc).unwrap();
    assert!(bc.exist(&fresh));
    assert_eq!(bc.code_at(&fresh), vec![0x60, 0x60]);
    assert_eq!(bc.storage_at(&fresh, &k), Ok(v));
    // The created account is filed under the allocator's next identifier.
    assert_eq!(bc.accounts[5].0, Alias::Contract(1));
}

#[test]
fn flush_fails_on_slot_write_without_account() {
    let mut bc = Blockchain::new();
    let mut st = State::new();
    let nowhere = Address::from_u64(0xbad);
    let k = Word256::from_u64(1);
    let v = Word256::from_u64(2);
    // A staged slot against an address that neither exists nor is being
    // created cannot land.
    st.set_storage(&bc, &nowhere, &k, &v);
    assert_eq!(st.update_state(&mut bc), Err(Error::InvalidAddress(nowhere)));
    assert!(!bc.exist(&nowhere));
    // The flags were left standing, so the retry fails the same way...
    assert_eq!(st.update_state(&mut bc), Err(Error::InvalidAddress(nowhere)));
    // ...until the account is staged for creation, and then it lands.
    st.init_code(&bc, &nowhere, vec![]);
    assert_eq!(st.update_state(&mut bc), Ok(()));
    assert_eq!(bc.storage_at(&nowhere, &k), Ok(v));
}

#[test]
fn set_nonce_and_set_balance_flush_through() {
    let mut bc = Blockchain::new();
    let mut st = State::new();
    let bob = bc.address("bob");
    st.set_nonce(&bc, &bob, &Word256::from_u64(9));
    st.set_balance(&bc, &bob, &Word256::from_u64(123));
    st.update_state(&mut bc).unwrap();
    let acc = bc.account(&bob).unwrap();
    assert_eq!(acc.nonce, Word256::from_u64(9));
    assert_eq!(acc.balance, Word256::from_u64(123));
}

#[test]
fn block_context_passthroughs() {
    let mut bc = Blockchain::new();
    bc.commit(7);
    let st = State::new();
    assert_eq!(st.block_number(&bc), 1);
    assert_eq!(st.timestamp(&bc), 1);
    assert_eq!(st.block_hash(&bc, 1), Ok(bc.blocks[1].hash()));
    assert_eq!(st.block_author(), Ok(Address { lo: 0, hi: 0 }));
    assert_eq!(st.difficulty(), Ok(Word256::zero()));
    assert_eq!(st.gas_limit(), Ok(Word256::from_u64(1000000)));
    let alice = bc.address("alice");
    assert!(st.exist(&bc, &alice));
}
