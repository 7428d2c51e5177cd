use durian_state::blockchain::{Alias, Blockchain};
use durian_state::transaction::{ResultData, Transaction};
use durian_state::words::{Address, Word256};
use durian_state::Error;

#[test]
fn genesis_and_seeded_accounts() {
    let bc = Blockchain::new();
    assert_eq!(bc.blocks.len(), 1);
    assert_eq!(bc.get_blocknumber(), 0);
    assert_eq!(bc.blocks[0].num, 0);
    assert_eq!(bc.blocks[0].prev, Word256::zero());
    assert_eq!(bc.accounts.len(), 5);
    let alice = bc.address("alice");
    assert_eq!(bc.get_balance(&alice), Word256::from_u64(1000000));
    assert_eq!(bc.code("alice"), Vec::<u8>::new());
    let naga = bc.address("naga");
    assert_eq!(
        naga,
        Address { lo: 0x2329997267ec62b4166639513386f32e, hi: 0x004ec07d }
    );
}

#[test]
fn chain_integrity_across_commits() {
    let mut bc = Blockchain::new();
    bc.commit(11);
    bc.commit(22);
    bc.commit(33);
    assert_eq!(bc.blocks.len(), 4);
    for i in 1..bc.blocks.len() {
        assert_eq!(bc.blocks[i].prev, bc.blocks[i - 1].hash());
        assert_eq!(bc.blocks[i].num as usize, i);
    }
    assert_eq!(bc.last_block_hash(), bc.blocks[3].hash());
    assert_eq!(bc.blockhash(2), bc.blocks[2].hash());
    assert_eq!(bc.get_blocknumber(), 3);
}

#[test]
fn contract_creation_naming() {
    let mut bc = Blockchain::new();
    let a1 = Address::from_u64(0x1111);
    let a2 = Address::from_u64(0x2222);
    let a3 = Address::from_u64(0x3333);
    let nonce = Word256::zero();
    bc.create_contract(&a1, &nonce, &vec![1u8]).unwrap();
    bc.create_contract(&a2, &nonce, &vec![2u8]).unwrap();
    bc.create_contract(&a3, &nonce, &vec![3u8]).unwrap();
    let ids: Vec<&Alias> = bc.accounts.iter().skip(5).map(|e| &e.0).collect();
    assert_eq!(ids.len(), 3);
    assert_eq!(*ids[0], Alias::Contract(1));
    assert_eq!(*ids[1], Alias::Contract(2));
    assert_eq!(*ids[2], Alias::Contract(3));
    assert_eq!(bc.accounts[5].1.address, a1);
    assert_eq!(bc.accounts[6].1.address, a2);
    assert_eq!(bc.accounts[7].1.address, a3);
    assert_eq!(bc.code_at(&a2), vec![2u8]);
    assert_eq!(bc.get_balance(&a1), Word256::zero());
}

#[test]
fn contract_creation_rejects_existing_address() {
    let mut bc = Blockchain::new();
    let alice = bc.address("alice");
    let r = bc.create_contract(&alice, &Word256::zero(), &vec![]);
    assert_eq!(r, Err(Error::AccountAlreadyExists(alice)));
    assert_eq!(bc.accounts.len(), 5);
}

#[test]
fn update_account_overwrites_balance_and_nonce() {
    let mut bc = Blockchain::new();
    let alice = bc.address("alice");
    bc.update_account(&alice, &Word256::from_u64(42), &Word256::from_u64(7))
        .unwrap();
    assert_eq!(bc.get_balance(&alice), Word256::from_u64(42));
    let unknown = Address::from_u64(0xdead);
    let r = bc.update_account(&unknown, &Word256::zero(), &Word256::zero());
    assert_eq!(r, Err(Error::InvalidAddress(unknown)));
}

#[test]
fn storage_roundtrip_and_errors() {
    let mut bc = Blockchain::new();
    let alice = bc.address("alice");
    let k = Word256::from_u64(9);
    let v = Word256::from_u64(77);
    assert_eq!(bc.storage_at(&alice, &k), Err(Error::InvalidStorageKey(k)));
    bc.set_storage(&alice, &k, &v).unwrap();
    assert_eq!(bc.storage_at(&alice, &k), Ok(v));
    let v2 = Word256::from_u64(78);
    bc.set_storage(&alice, &k, &v2).unwrap();
    assert_eq!(bc.storage_at(&alice, &k), Ok(v2));
    let unknown = Address::from_u64(0xbeef);
    assert_eq!(
        bc.storage_at(&unknown, &k),
        Err(Error::InvalidAddress(unknown))
    );
    assert_eq!(
        bc.set_storage(&unknown, &k, &v),
        Err(Error::InvalidAddress(unknown))
    );
}

#[test]
fn inc_nonce_steps_by_one() {
    let mut bc = Blockchain::new();
    bc.inc_nonce("bob");
    bc.inc_nonce("bob");
    let bob = bc.address("bob");
    let acc = bc.account(&bob).unwrap();
    assert_eq!(acc.nonce, Word256::from_u64(2));
    assert_eq!(acc.balance, Word256::from_u64(1000000));
}

#[test]
fn init_code_writes_code_once() {
    let mut bc = Blockchain::new();
    let alice = bc.address("alice");
    assert_eq!(bc.code_at(&alice), Vec::<u8>::new());
    bc.init_code(&alice, &vec![0xfe, 0xed]).unwrap();
    assert_eq!(bc.code_at(&alice), vec![0xfe, 0xed]);
    let unknown = Address::from_u64(0x404);
    assert_eq!(
        bc.init_code(&unknown, &vec![]),
        Err(Error::InvalidAddress(unknown))
    );
}

#[test]
fn exist_reports_presence() {
    let bc = Blockchain::new();
    let alice = bc.address("alice");
    assert!(bc.exist(&alice));
    assert!(!bc.exist(&Address::from_u64(0xabcdef)));
}

#[test]
fn transaction_indexing() {
    let mut bc = Blockchain::new();
    let alice = bc.address("alice");
    let tx = Transaction::make_call(
        alice,
        Address::from_u64(0x42),
        Word256::from_u64(5),
        Word256::from_u64(100000),
        Word256::zero(),
        vec![0xa9, 0x05],
        Word256::zero(),
    );
    let res1 = ResultData { success: true, data: vec![1], contract: None };
    let res2 = ResultData { success: false, data: vec![2], contract: None };
    let h1 = bc.add_transactions(tx.clone(), res1.clone());
    let (t, d) = bc.get_transaction_details(&h1).unwrap();
    assert_eq!(t, tx);
    assert_eq!(d, res1);
    // A byte-identical transaction hashes identically, and the stored
    // result is overwritten: last write wins.
    let h2 = bc.add_transactions(tx.clone(), res2.clone());
    assert_eq!(h1, h2);
    assert_eq!(bc.transactions.len(), 1);
    let (t2, d2) = bc.get_transaction_details(&h2).unwrap();
    assert_eq!(t2, tx);
    assert_eq!(d2, res2);
}
