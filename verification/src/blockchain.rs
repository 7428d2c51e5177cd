//! The backing ledger: an append-only, hash-chained vector of blocks, the
//! durable accounts under their human-readable identifiers, a transaction
//! audit index keyed by content hash, and a fresh-identifier allocator for
//! created contracts. The ledger is the provider the overlay cache commits
//! into.

use crate::account::{has_slot, slot_value, Account};
use crate::block::Block;
use crate::codec::copy_bytes;
use crate::transaction::{rd_like, tx_like, ResultData, Transaction};
use crate::words::{Address, Word256};
use crate::Error;
use vstd::prelude::*;

verus! {

/// The human-readable identifier an account is filed under. Seeded accounts
/// carry a name; accounts made by contract creation carry the number the
/// ledger's allocator handed out.
#[derive(Debug, Clone, PartialEq)]
pub enum Alias {
    Named(String),
    Contract(u64),
}

/// Whether two identifiers denote the same label.
pub open spec fn same_alias(a: Alias, b: Alias) -> bool {
    match (a, b) {
        (Alias::Named(x), Alias::Named(y)) => x@ == y@,
        (Alias::Contract(x), Alias::Contract(y)) => x == y,
        _ => false,
    }
}

/// The identifier is the given name.
pub open spec fn is_named(a: Alias, n: Seq<char>) -> bool {
    a matches Alias::Named(m) && m@ == n
}

/// No two entries hold the same address.
pub open spec fn addrs_unique(s: Seq<(Alias, Account)>) -> bool {
    forall|i: int, j: int| 0 <= i < j < s.len() ==> s[i].1.address != s[j].1.address
}

/// No two entries are filed under the same identifier.
pub open spec fn aliases_unique(s: Seq<(Alias, Account)>) -> bool {
    forall|i: int, j: int| 0 <= i < j < s.len() ==> !same_alias(s[i].0, s[j].0)
}

/// Some entry holds the address.
pub open spec fn has_addr(s: Seq<(Alias, Account)>, a: Address) -> bool {
    exists|i: int| 0 <= i < s.len() && s[i].1.address == a
}

/// The index of the entry holding the address.
pub open spec fn addr_index(s: Seq<(Alias, Account)>, a: Address) -> int {
    choose|i: int| 0 <= i < s.len() && s[i].1.address == a
}

/// The account at the address.
pub open spec fn account_of(s: Seq<(Alias, Account)>, a: Address) -> Account {
    s[addr_index(s, a)].1
}

/// Some entry is filed under the given name.
pub open spec fn has_named(s: Seq<(Alias, Account)>, n: Seq<char>) -> bool {
    exists|i: int| 0 <= i < s.len() && is_named(s[i].0, n)
}

/// The index of the entry filed under the given name.
pub open spec fn named_index(s: Seq<(Alias, Account)>, n: Seq<char>) -> int {
    choose|i: int| 0 <= i < s.len() && is_named(s[i].0, n)
}

/// With distinct addresses, the entry holding an address is the only one
/// that does.
pub proof fn lemma_addr_index(s: Seq<(Alias, Account)>, a: Address)
    requires
        addrs_unique(s),
        has_addr(s, a),
    ensures
        0 <= addr_index(s, a) < s.len(),
        s[addr_index(s, a)].1.address == a,
        forall|i: int| 0 <= i < s.len() && s[i].1.address == a ==> i == addr_index(s, a),
{
    let w = addr_index(s, a);
    assert(0 <= w < s.len() && s[w].1.address == a);
    assert forall|i: int| 0 <= i < s.len() && s[i].1.address == a implies i == w by {
        if i < w {
            assert(s[i].1.address != s[w].1.address);
        } else if w < i {
            assert(s[w].1.address != s[i].1.address);
        }
    }
}

/// With distinct identifiers, the entry filed under a name is the only one.
pub proof fn lemma_named_index(s: Seq<(Alias, Account)>, n: Seq<char>)
    requires
        aliases_unique(s),
        has_named(s, n),
    ensures
        0 <= named_index(s, n) < s.len(),
        is_named(s[named_index(s, n)].0, n),
        forall|i: int| 0 <= i < s.len() && is_named(s[i].0, n) ==> i == named_index(s, n),
{
    let w = named_index(s, n);
    assert(0 <= w < s.len() && is_named(s[w].0, n));
    assert forall|i: int| 0 <= i < s.len() && is_named(s[i].0, n) implies i == w by {
        if i < w {
            assert(!same_alias(s[i].0, s[w].0));
        } else if w < i {
            assert(!same_alias(s[w].0, s[i].0));
        }
    }
}

/// No two audit-log entries carry the same transaction hash.
pub open spec fn txs_unique(s: Seq<(Word256, Transaction, ResultData)>) -> bool {
    forall|i: int, j: int| 0 <= i < j < s.len() ==> s[i].0 != s[j].0
}

/// Some audit-log entry carries the hash.
pub open spec fn has_tx(s: Seq<(Word256, Transaction, ResultData)>, h: Word256) -> bool {
    exists|i: int| 0 <= i < s.len() && s[i].0 == h
}

/// The index of the audit-log entry carrying the hash.
pub open spec fn tx_index(s: Seq<(Word256, Transaction, ResultData)>, h: Word256) -> int {
    choose|i: int| 0 <= i < s.len() && s[i].0 == h
}

/// With distinct hashes, the entry carrying a hash is the only one.
pub proof fn lemma_tx_index(s: Seq<(Word256, Transaction, ResultData)>, h: Word256)
    requires
        txs_unique(s),
        has_tx(s, h),
    ensures
        0 <= tx_index(s, h) < s.len(),
        s[tx_index(s, h)].0 == h,
        forall|i: int| 0 <= i < s.len() && s[i].0 == h ==> i == tx_index(s, h),
{
    let w = tx_index(s, h);
    assert(0 <= w < s.len() && s[w].0 == h);
    assert forall|i: int| 0 <= i < s.len() && s[i].0 == h implies i == w by {
        if i < w {
            assert(s[i].0 != s[w].0);
        } else if w < i {
            assert(s[w].0 != s[i].0);
        }
    }
}

/// The durable snapshot of an account the provider interface hands out:
/// balance, nonce and code, without the storage.
#[derive(Debug)]
pub struct StateAccount {
    pub balance: Word256,
    pub nonce: Word256,
    pub code: Vec<u8>,
}

/// The backing store. See the module doc.
#[derive(Debug)]
pub struct Blockchain {
    pub blocks: Vec<Block>,
    pub accounts: Vec<(Alias, Account)>,
    pub counter: u64,
    pub transactions: Vec<(Word256, Transaction, ResultData)>,
}

impl Blockchain {
    /// The ledger's standing invariant: a non-empty chain that starts at
    /// genesis, numbers blocks by their index and links each block to the
    /// hash of its predecessor; accounts with distinct addresses and
    /// distinct identifiers, each internally consistent; contract
    /// identifiers never ahead of the allocator; and an audit log with
    /// distinct hashes.
    pub open spec fn wf(self) -> bool {
        &&& self.blocks@.len() >= 1
        &&& self.blocks@[0].prev@ == 0
        &&& forall|i: int| 0 <= i < self.blocks@.len() ==> #[trigger] self.blocks@[i].num == i
        &&& forall|i: int|
            1 <= i < self.blocks@.len() ==> #[trigger] self.blocks@[i].prev == self.blocks@[i
                - 1].hash_spec()
        &&& addrs_unique(self.accounts@)
        &&& aliases_unique(self.accounts@)
        &&& forall|i: int| 0 <= i < self.accounts@.len() ==> (#[trigger] self.accounts@[i]).1.wf()
        &&& forall|i: int|
            0 <= i < self.accounts@.len() ==> ((#[trigger] self.accounts@[i]).0 matches
            Alias::Contract(k) ==> 1 <= k <= self.counter)
        &&& txs_unique(self.transactions@)
    }

    /// One freshly seeded bootstrap account.
    pub open spec fn seeded(e: (Alias, Account)) -> bool {
        &&& e.1.balance@ == 1000000
        &&& e.1.nonce@ == 0
        &&& e.1.code@.len() == 0
        &&& e.1.storage@.len() == 0
    }

    /// A fresh ledger: a genesis block (height 0, zero predecessor hash)
    /// and a fixed set of five named bootstrap accounts, each holding a
    /// preset balance at a fixed, pairwise distinct address. The seeding is
    /// a bootstrap fixture, deterministic so that runs are reproducible.
    pub fn new() -> (r: Blockchain)
        ensures
            r.wf(),
            r.blocks@.len() == 1,
            r.blocks@[0] == (Block { num: 0, prev: (Word256 { lo: 0, hi: 0 }), time: 0 }),
            r.counter == 0,
            r.transactions@.len() == 0,
            r.accounts@.len() == 5,
            forall|i: int| 0 <= i < 5 ==> Blockchain::seeded(#[trigger] r.accounts@[i]),
            is_named(r.accounts@[0].0, "alice"@),
            is_named(r.accounts@[1].0, "bob"@),
            is_named(r.accounts@[2].0, "carol"@),
            is_named(r.accounts@[3].0, "dave"@),
            is_named(r.accounts@[4].0, "naga"@),
            forall|i: int, j: int|
                0 <= i < j < 5 ==> #[trigger] r.accounts@[i].1.address
                    != #[trigger] r.accounts@[j].1.address,
            r.accounts@[0].1.address == (Address { lo: 0xa1, hi: 0 }),
            r.accounts@[1].1.address == (Address { lo: 0xb2, hi: 0 }),
            r.accounts@[2].1.address == (Address { lo: 0xc3, hi: 0 }),
            r.accounts@[3].1.address == (Address { lo: 0xd4, hi: 0 }),
            r.accounts@[4].1.address == (Address {
                lo: 0x2329997267ec62b4166639513386f32e,
                hi: 0x004ec07d,
            }),
    {
        let gen = Block::new(0, Word256::zero(), 0);
        let bal = Word256::from_u64(1000000);
        let zero = Word256::zero();
        let mut accounts: Vec<(Alias, Account)> = Vec::new();
        accounts.push(
            (
                Alias::Named("alice".to_owned()),
                Account::new(Address { lo: 0xa1, hi: 0 }, bal, zero, Vec::new()),
            ),
        );
        accounts.push(
            (
                Alias::Named("bob".to_owned()),
                Account::new(Address { lo: 0xb2, hi: 0 }, bal, zero, Vec::new()),
            ),
        );
        accounts.push(
            (
                Alias::Named("carol".to_owned()),
                Account::new(Address { lo: 0xc3, hi: 0 }, bal, zero, Vec::new()),
            ),
        );
        accounts.push(
            (
                Alias::Named("dave".to_owned()),
                Account::new(Address { lo: 0xd4, hi: 0 }, bal, zero, Vec::new()),
            ),
        );
        accounts.push(
            (
                Alias::Named("naga".to_owned()),
                Account::new(
                    Address { lo: 0x2329997267ec62b4166639513386f32e, hi: 0x004ec07d },
                    bal,
                    zero,
                    Vec::new(),
                ),
            ),
        );
        let mut blocks: Vec<Block> = Vec::new();
        blocks.push(gen);
        let r = Blockchain { blocks, accounts, counter: 0, transactions: Vec::new() };
        proof {
            reveal_strlit("alice");
            reveal_strlit("bob");
            reveal_strlit("carol");
            reveal_strlit("dave");
            reveal_strlit("naga");
            let s = r.accounts@;
            assert(s.len() == 5);
            assert(is_named(s[0].0, "alice"@));
            assert(is_named(s[1].0, "bob"@));
            assert(is_named(s[2].0, "carol"@));
            assert(is_named(s[3].0, "dave"@));
            assert(is_named(s[4].0, "naga"@));
            assert("alice"@.len() == 5 && "bob"@.len() == 3 && "carol"@.len() == 5 && "dave"@.len()
                == 4 && "naga"@.len() == 4);
            assert("alice"@[0] == 'a' && "carol"@[0] == 'c' && "dave"@[0] == 'd' && "naga"@[0]
                == 'n');
            assert("alice"@ != "bob"@ && "alice"@ != "carol"@ && "alice"@ != "dave"@ && "alice"@
                != "naga"@);
            assert("bob"@ != "carol"@ && "bob"@ != "dave"@ && "bob"@ != "naga"@);
            assert("carol"@ != "dave"@ && "carol"@ != "naga"@);
            assert("dave"@ != "naga"@);
            assert(aliases_unique(s));
        }
        r
    }

    /// Appends exactly one block: height is the present chain length, the
    /// predecessor hash is the present last block's hash, the timestamp is
    /// the caller's clock reading. This is the only chain-growth operation;
    /// nothing else about the ledger changes.
    pub fn commit(&mut self, time: u64)
        requires
            old(self).wf(),
            old(self).blocks@.len() < 0xffff_ffff,
        ensures
            final(self).wf(),
            final(self).blocks@ == old(self).blocks@.push(
                Block {
                    num: old(self).blocks@.len() as u32,
                    prev: old(self).blocks@.last().hash_spec(),
                    time,
                },
            ),
            final(self).accounts == old(self).accounts,
            final(self).counter == old(self).counter,
            final(self).transactions == old(self).transactions,
    {
        let n = self.blocks.len();
        let prev = self.blocks[n - 1].hash();
        let block = Block::new(n as u32, prev, time);
        self.blocks.push(block);
    }

    /// The durable snapshot of the account at the address, or
    /// `InvalidAddress` when no account holds it.
    pub fn account(&self, address: &Address) -> (r: Result<StateAccount, Error>)
        requires
            self.wf(),
        ensures
            match r {
                Ok(sa) => has_addr(self.accounts@, *address) && sa.balance == account_of(
                    self.accounts@,
                    *address,
                ).balance && sa.nonce == account_of(self.accounts@, *address).nonce && sa.code@
                    == account_of(self.accounts@, *address).code@,
                Err(e) => !has_addr(self.accounts@, *address) && e == Error::InvalidAddress(
                    *address,
                ),
            },
    {
        let mut i: usize = 0;
        while i < self.accounts.len()
            invariant
                i <= self.accounts@.len(),
                self.wf(),
                forall|j: int| 0 <= j < i ==> self.accounts@[j].1.address != *address,
            decreases self.accounts@.len() - i,
        {
            if self.accounts[i].1.address == *address {
                proof {
                    lemma_addr_index(self.accounts@, *address);
                }
                let acc = &self.accounts[i].1;
                return Ok(
                    StateAccount {
                        balance: acc.balance,
                        nonce: acc.nonce,
                        code: copy_bytes(&acc.code),
                    },
                );
            }
            i = i + 1;
        }
        Err(Error::InvalidAddress(*address))
    }

    /// Whether any account is filed under the name.
    pub fn has_alias(&self, alias: &str) -> (r: bool)
        ensures
            r == has_named(self.accounts@, alias@),
    {
        let owned: String = alias.to_owned();
        let mut i: usize = 0;
        while i < self.accounts.len()
            invariant
                i <= self.accounts@.len(),
                owned@ == alias@,
                forall|j: int| 0 <= j < i ==> !is_named(self.accounts@[j].0, alias@),
            decreases self.accounts@.len() - i,
        {
            match &self.accounts[i].0 {
                Alias::Named(n) => {
                    if *n == owned {
                        return true;
                    }
                },
                Alias::Contract(_) => {},
            }
            i = i + 1;
        }
        false
    }

    /// Whether the audit log holds an entry under the hash.
    pub fn has_transaction(&self, hash: &Word256) -> (r: bool)
        ensures
            r == has_tx(self.transactions@, *hash),
    {
        let mut i: usize = 0;
        while i < self.transactions.len()
            invariant
                i <= self.transactions@.len(),
                forall|j: int| 0 <= j < i ==> self.transactions@[j].0 != *hash,
            decreases self.transactions@.len() - i,
        {
            if self.transactions[i].0 == *hash {
                return true;
            }
            i = i + 1;
        }
        false
    }

    /// Whether any account holds the address.
    pub fn exist(&self, address: &Address) -> (r: bool)
        ensures
            r == has_addr(self.accounts@, *address),
    {
        let mut i: usize = 0;
        while i < self.accounts.len()
            invariant
                i <= self.accounts@.len(),
                forall|j: int| 0 <= j < i ==> self.accounts@[j].1.address != *address,
            decreases self.accounts@.len() - i,
        {
            if self.accounts[i].1.address == *address {
                return true;
            }
            i = i + 1;
        }
        false
    }

    /// The balance of the account at the address; the caller knows the
    /// account exists.
    pub fn get_balance(&self, address: &Address) -> (r: Word256)
        requires
            self.wf(),
            has_addr(self.accounts@, *address),
        ensures
            r == account_of(self.accounts@, *address).balance,
    {
        match self.account(address) {
            Ok(sa) => sa.balance,
            Err(_) => {
                proof {
                    assert(false);
                }
                Word256::zero()
            },
        }
    }

    /// The code of the account at the address; the caller knows the
    /// account exists.
    pub fn code_at(&self, address: &Address) -> (r: Vec<u8>)
        requires
            self.wf(),
            has_addr(self.accounts@, *address),
        ensures
            r@ == account_of(self.accounts@, *address).code@,
    {
        match self.account(address) {
            Ok(sa) => sa.code,
            Err(_) => {
                proof {
                    assert(false);
                }
                Vec::new()
            },
        }
    }

    /// The hash of the committed block at the given height; an
    /// out-of-range height is a caller error.
    pub fn blockhash(&self, num: i64) -> (r: Word256)
        requires
            0 <= num < self.blocks@.len(),
        ensures
            r == self.blocks@[num as int].hash_spec(),
    {
        let n: usize = self.blocks.len();
        let idx: usize = num as usize;
        self.blocks[idx].hash()
    }

    /// The hash of the present last block.
    pub fn last_block_hash(&self) -> (r: Word256)
        requires
            self.blocks@.len() >= 1,
        ensures
            r == self.blocks@.last().hash_spec(),
    {
        self.blocks[self.blocks.len() - 1].hash()
    }

    /// The height of the present last block.
    pub fn get_blocknumber(&self) -> (r: u32)
        requires
            self.wf(),
        ensures
            r == self.blocks@.len() - 1,
    {
        self.blocks[self.blocks.len() - 1].block_number()
    }

    /// Registers a brand-new account under the next contract identifier,
    /// holding the given nonce and code and a zero balance. Creation fails
    /// loudly when the address is already present; it never overwrites.
    pub fn create_contract(&mut self, address: &Address, nonce: &Word256, code: &Vec<u8>) -> (r:
        Result<(), Error>)
        requires
            old(self).wf(),
            old(self).counter < u64::MAX,
        ensures
            final(self).wf(),
            final(self).blocks == old(self).blocks,
            final(self).transactions == old(self).transactions,
            match r {
                Ok(()) => {
                    &&& !has_addr(old(self).accounts@, *address)
                    &&& final(self).counter == old(self).counter + 1
                    &&& final(self).accounts@.len() == old(self).accounts@.len() + 1
                    &&& forall|j: int|
                        0 <= j < old(self).accounts@.len() ==> final(self).accounts@[j] == old(
                            self,
                        ).accounts@[j]
                    &&& final(self).accounts@.last().0 == Alias::Contract(
                        (old(self).counter + 1) as u64,
                    )
                    &&& final(self).accounts@.last().1.address == *address
                    &&& final(self).accounts@.last().1.balance@ == 0
                    &&& final(self).accounts@.last().1.nonce == *nonce
                    &&& final(self).accounts@.last().1.code@ == code@
                    &&& final(self).accounts@.last().1.storage@.len() == 0
                },
                Err(e) => {
                    &&& has_addr(old(self).accounts@, *address)
                    &&& e == Error::AccountAlreadyExists(*address)
                    &&& final(self).accounts == old(self).accounts
                    &&& final(self).counter == old(self).counter
                },
            },
    {
        if self.exist(address) {
            return Err(Error::AccountAlreadyExists(*address));
        }
        let id: u64 = self.counter + 1;
        let acc = Account::new(*address, Word256::zero(), *nonce, copy_bytes(code));
        self.accounts.push((Alias::Contract(id), acc));
        self.counter = id;
        proof {
            let s0 = old(self).accounts@;
            let s1 = self.accounts@;
            assert(forall|j: int| 0 <= j < s0.len() ==> s1[j] == s0[j]);
            assert(forall|j: int| 0 <= j < s0.len() ==> s0[j].1.address != *address);
            assert forall|i: int, j: int| 0 <= i < j < s1.len() implies !same_alias(
                s1[i].0,
                s1[j].0,
            ) by {
                if j == s0.len() as int {
                    assert(s1[j].0 == Alias::Contract(id));
                    match s1[i].0 {
                        Alias::Contract(k) => {
                            assert(1 <= k <= old(self).counter);
                        },
                        Alias::Named(_) => {
                        },
                    }
                }
            }
            assert(addrs_unique(s1));
        }
        Ok(())
    }

    /// Overwrites the balance and nonce of the account at the address;
    /// `InvalidAddress` when no account holds it. Code and storage are
    /// untouched: code is immutable after creation, and storage moves only
    /// through `set_storage`.
    pub fn update_account(&mut self, address: &Address, bal: &Word256, nonce: &Word256) -> (r:
        Result<(), Error>)
        requires
            old(self).wf(),
        ensures
            final(self).wf(),
            final(self).blocks == old(self).blocks,
            final(self).counter == old(self).counter,
            final(self).transactions == old(self).transactions,
            match r {
                Ok(()) => {
                    &&& has_addr(old(self).accounts@, *address)
                    &&& final(self).accounts@ == old(self).accounts@.update(
                        addr_index(old(self).accounts@, *address),
                        (
                            old(self).accounts@[addr_index(old(self).accounts@, *address)].0,
                            (Account {
                                address: *address,
                                nonce: *nonce,
                                balance: *bal,
                                code: old(self).accounts@[addr_index(
                                    old(self).accounts@,
                                    *address,
                                )].1.code,
                                storage: old(self).accounts@[addr_index(
                                    old(self).accounts@,
                                    *address,
                                )].1.storage,
                            }),
                        ),
                    )
                },
                Err(e) => {
                    &&& !has_addr(old(self).accounts@, *address)
                    &&& e == Error::InvalidAddress(*address)
                    &&& final(self).accounts == old(self).accounts
                },
            },
    {
        let mut i: usize = 0;
        while i < self.accounts.len()
            invariant
                i <= self.accounts@.len(),
                old(self).wf(),
                self.blocks == old(self).blocks,
                self.accounts == old(self).accounts,
                self.counter == old(self).counter,
                self.transactions == old(self).transactions,
                forall|j: int| 0 <= j < i ==> self.accounts@[j].1.address != *address,
            decreases self.accounts@.len() - i,
        {
            if self.accounts[i].1.address == *address {
                proof {
                    lemma_addr_index(old(self).accounts@, *address);
                }
                self.accounts[i].1.balance = *bal;
                self.accounts[i].1.nonce = *nonce;
                proof {
                    let s0 = old(self).accounts@;
                    let s1 = self.accounts@;
                    let idx = addr_index(s0, *address);
                    assert(idx == i as int);
                    assert(s1 =~= s0.update(
                        idx,
                        (
                            s0[idx].0,
                            (Account {
                                address: *address,
                                nonce: *nonce,
                                balance: *bal,
                                code: s0[idx].1.code,
                                storage: s0[idx].1.storage,
                            }),
                        ),
                    ));
                    assert(forall|j: int| 0 <= j < s1.len() ==> s1[j].0 == s0[j].0);
                    assert(forall|j: int|
                        0 <= j < s1.len() ==> #[trigger] s1[j].1.address == s0[j].1.address);
                    assert(forall|j: int|
                        0 <= j < s1.len() ==> #[trigger] s1[j].1.storage == s0[j].1.storage);
                    assert(addrs_unique(s1));
                    assert(aliases_unique(s1));
                }
                return Ok(());
            }
            i = i + 1;
        }
        Err(Error::InvalidAddress(*address))
    }

    /// Writes the code of the account at the address; `InvalidAddress`
    /// when no account holds it. Meant for the moment of creation: the
    /// data model treats code as immutable afterwards, and callers must
    /// not rewrite it.
    pub fn init_code(&mut self, address: &Address, code: &Vec<u8>) -> (r: Result<(), Error>)
        requires
            old(self).wf(),
        ensures
            final(self).wf(),
            final(self).blocks == old(self).blocks,
            final(self).counter == old(self).counter,
            final(self).transactions == old(self).transactions,
            match r {
                Ok(()) => {
                    &&& has_addr(old(self).accounts@, *address)
                    &&& final(self).accounts@ == old(self).accounts@.update(
                        addr_index(old(self).accounts@, *address),
                        (
                            old(self).accounts@[addr_index(old(self).accounts@, *address)].0,
                            (Account {
                                address: *address,
                                nonce: old(self).accounts@[addr_index(
                                    old(self).accounts@,
                                    *address,
                                )].1.nonce,
                                balance: old(self).accounts@[addr_index(
                                    old(self).accounts@,
                                    *address,
                                )].1.balance,
                                code: final(self).accounts@[addr_index(
                                    old(self).accounts@,
                                    *address,
                                )].1.code,
                                storage: old(self).accounts@[addr_index(
                                    old(self).accounts@,
                                    *address,
                                )].1.storage,
                            }),
                        ),
                    )
                    &&& final(self).accounts@[addr_index(old(self).accounts@, *address)].1.code@
                        == code@
                },
                Err(e) => {
                    &&& !has_addr(old(self).accounts@, *address)
                    &&& e == Error::InvalidAddress(*address)
                    &&& final(self).accounts == old(self).accounts
                },
            },
    {
        let mut i: usize = 0;
        while i < self.accounts.len()
            invariant
                i <= self.accounts@.len(),
                old(self).wf(),
                self.blocks == old(self).blocks,
                self.accounts == old(self).accounts,
                self.counter == old(self).counter,
                self.transactions == old(self).transactions,
                forall|j: int| 0 <= j < i ==> self.accounts@[j].1.address != *address,
            decreases self.accounts@.len() - i,
        {
            if self.accounts[i].1.address == *address {
                proof {
                    lemma_addr_index(old(self).accounts@, *address);
                }
                self.accounts[i].1.code = copy_bytes(code);
                proof {
                    let s0 = old(self).accounts@;
                    let s1 = self.accounts@;
                    let idx = addr_index(s0, *address);
                    assert(idx == i as int);
                    assert(s1 =~= s0.update(
                        idx,
                        (
                            s0[idx].0,
                            (Account {
                                address: *address,
                                nonce: s0[idx].1.nonce,
                                balance: s0[idx].1.balance,
                                code: s1[idx].1.code,
                                storage: s0[idx].1.storage,
                            }),
                        ),
                    ));
                    assert(forall|j: int| 0 <= j < s1.len() ==> s1[j].0 == s0[j].0);
                    assert(forall|j: int|
                        0 <= j < s1.len() ==> #[trigger] s1[j].1.address == s0[j].1.address);
                    assert(forall|j: int|
                        0 <= j < s1.len() ==> #[trigger] s1[j].1.storage == s0[j].1.storage);
                    assert(addrs_unique(s1));
                    assert(aliases_unique(s1));
                }
                return Ok(());
            }
            i = i + 1;
        }
        Err(Error::InvalidAddress(*address))
    }

    /// Writes `value` under `key` in the storage of the account at the
    /// address, adding the slot if it was never written; `InvalidAddress`
    /// when no account holds the address. Nothing else changes.
    pub fn set_storage(&mut self, address: &Address, key: &Word256, value: &Word256) -> (r: Result<
        (),
        Error,
    >)
        requires
            old(self).wf(),
        ensures
            final(self).wf(),
            final(self).blocks == old(self).blocks,
            final(self).counter == old(self).counter,
            final(self).transactions == old(self).transactions,
            match r {
                Ok(()) => {
                    &&& has_addr(old(self).accounts@, *address)
                    &&& has_addr(final(self).accounts@, *address)
                    &&& final(self).accounts@.len() == old(self).accounts@.len()
                    &&& {
                        let s0 = account_of(old(self).accounts@, *address).storage@;
                        let s1 = account_of(final(self).accounts@, *address).storage@;
                        &&& has_slot(s1, *key)
                        &&& slot_value(s1, *key) == *value
                        &&& forall|k2: Word256|
                            k2 != *key ==> (has_slot(s1, k2) == has_slot(s0, k2) && (has_slot(
                                s0,
                                k2,
                            ) ==> slot_value(s1, k2) == slot_value(s0, k2)))
                    }
                    &&& account_of(final(self).accounts@, *address).balance == account_of(
                        old(self).accounts@,
                        *address,
                    ).balance
                    &&& account_of(final(self).accounts@, *address).nonce == account_of(
                        old(self).accounts@,
                        *address,
                    ).nonce
                    &&& account_of(final(self).accounts@, *address).code == account_of(
                        old(self).accounts@,
                        *address,
                    ).code
                    &&& forall|j: int|
                        0 <= j < old(self).accounts@.len() && j != addr_index(
                            old(self).accounts@,
                            *address,
                        ) ==> final(self).accounts@[j] == old(self).accounts@[j]
                    &&& forall|j: int|
                        0 <= j < old(self).accounts@.len()
                            ==> (#[trigger] final(self).accounts@[j]).0 == old(self).accounts@[j].0
                },
                Err(e) => {
                    &&& !has_addr(old(self).accounts@, *address)
                    &&& e == Error::InvalidAddress(*address)
                    &&& final(self).accounts == old(self).accounts
                },
            },
    {
        let mut i: usize = 0;
        while i < self.accounts.len()
            invariant
                i <= self.accounts@.len(),
                old(self).wf(),
                self.blocks == old(self).blocks,
                self.accounts == old(self).accounts,
                self.counter == old(self).counter,
                self.transactions == old(self).transactions,
                forall|j: int| 0 <= j < i ==> self.accounts@[j].1.address != *address,
            decreases self.accounts@.len() - i,
        {
            if self.accounts[i].1.address == *address {
                proof {
                    lemma_addr_index(old(self).accounts@, *address);
                }
                let acc: &mut Account = &mut self.accounts[i].1;
                acc.storage_set(key, value);
                proof {
                    let s0 = old(self).accounts@;
                    let s1 = self.accounts@;
                    let idx = addr_index(s0, *address);
                    assert(idx == i as int);
                    assert(s1.len() == s0.len());
                    assert(forall|j: int| 0 <= j < s1.len() && j != idx ==> s1[j] == s0[j]);
                    assert(forall|j: int| 0 <= j < s1.len() ==> s1[j].0 == s0[j].0);
                    assert(forall|j: int|
                        0 <= j < s1.len() ==> #[trigger] s1[j].1.address == s0[j].1.address);
                    assert(addrs_unique(s1));
                    assert(aliases_unique(s1));
                    assert(has_addr(s1, *address));
                    lemma_addr_index(s1, *address);
                    assert(addr_index(s1, *address) == idx);
                    assert(account_of(s1, *address) == s1[idx].1);
                }
                return Ok(());
            }
            i = i + 1;
        }
        Err(Error::InvalidAddress(*address))
    }

    /// The value ever written under `key` for the account at the address.
    /// `InvalidStorageKey` reports that no value was ever written there —
    /// the overlay reads it as logical zero; `InvalidAddress` reports that
    /// no account holds the address.
    pub fn storage_at(&self, address: &Address, key: &Word256) -> (r: Result<Word256, Error>)
        requires
            self.wf(),
        ensures
            match r {
                Ok(v) => has_addr(self.accounts@, *address) && has_slot(
                    account_of(self.accounts@, *address).storage@,
                    *key,
                ) && v == slot_value(account_of(self.accounts@, *address).storage@, *key),
                Err(e) => if has_addr(self.accounts@, *address) {
                    e == Error::InvalidStorageKey(*key) && !has_slot(
                        account_of(self.accounts@, *address).storage@,
                        *key,
                    )
                } else {
                    e == Error::InvalidAddress(*address)
                },
            },
    {
        let mut i: usize = 0;
        while i < self.accounts.len()
            invariant
                i <= self.accounts@.len(),
                self.wf(),
                forall|j: int| 0 <= j < i ==> self.accounts@[j].1.address != *address,
            decreases self.accounts@.len() - i,
        {
            if self.accounts[i].1.address == *address {
                proof {
                    lemma_addr_index(self.accounts@, *address);
                }
                return match self.accounts[i].1.storage_get(key) {
                    Some(v) => Ok(v),
                    None => Err(Error::InvalidStorageKey(*key)),
                };
            }
            i = i + 1;
        }
        Err(Error::InvalidAddress(*address))
    }

    /// The address of the account filed under the name; the caller knows
    /// the name is present.
    pub fn address(&self, alias: &str) -> (r: Address)
        requires
            self.wf(),
            has_named(self.accounts@, alias@),
        ensures
            r == self.accounts@[named_index(self.accounts@, alias@)].1.address,
    {
        let owned: String = alias.to_owned();
        let mut i: usize = 0;
        while i < self.accounts.len()
            invariant
                i <= self.accounts@.len(),
                self.wf(),
                has_named(self.accounts@, alias@),
                owned@ == alias@,
                forall|j: int| 0 <= j < i ==> !is_named(self.accounts@[j].0, alias@),
            decreases self.accounts@.len() - i,
        {
            match &self.accounts[i].0 {
                Alias::Named(n) => {
                    if *n == owned {
                        proof {
                            lemma_named_index(self.accounts@, alias@);
                        }
                        return self.accounts[i].1.address;
                    }
                },
                Alias::Contract(_) => {},
            }
            i = i + 1;
        }
        proof {
            lemma_named_index(self.accounts@, alias@);
            assert(false);
        }
        Address { lo: 0, hi: 0 }
    }

    /// The code of the account filed under the name; the caller knows the
    /// name is present.
    pub fn code(&self, alias: &str) -> (r: Vec<u8>)
        requires
            self.wf(),
            has_named(self.accounts@, alias@),
        ensures
            r@ == self.accounts@[named_index(self.accounts@, alias@)].1.code@,
    {
        let owned: String = alias.to_owned();
        let mut i: usize = 0;
        while i < self.accounts.len()
            invariant
                i <= self.accounts@.len(),
                self.wf(),
                has_named(self.accounts@, alias@),
                owned@ == alias@,
                forall|j: int| 0 <= j < i ==> !is_named(self.accounts@[j].0, alias@),
            decreases self.accounts@.len() - i,
        {
            match &self.accounts[i].0 {
                Alias::Named(n) => {
                    if *n == owned {
                        proof {
                            lemma_named_index(self.accounts@, alias@);
                        }
                        return copy_bytes(&self.accounts[i].1.code);
                    }
                },
                Alias::Contract(_) => {},
            }
            i = i + 1;
        }
        proof {
            lemma_named_index(self.accounts@, alias@);
            assert(false);
        }
        Vec::new()
    }

    /// Steps the nonce of the account filed under the name by one; the
    /// caller knows the name is present and the nonce below its ceiling.
    /// Nonces never move otherwise than upward.
    pub fn inc_nonce(&mut self, alias: &str)
        requires
            old(self).wf(),
            has_named(old(self).accounts@, alias@),
            account_nonce_at(old(self).accounts@, named_index(old(self).accounts@, alias@))
                < Word256::max_value(),
        ensures
            final(self).wf(),
            final(self).blocks == old(self).blocks,
            final(self).counter == old(self).counter,
            final(self).transactions == old(self).transactions,
            final(self).accounts@.len() == old(self).accounts@.len(),
            ({
                let idx = named_index(old(self).accounts@, alias@);
                &&& final(self).accounts@[idx].0 == old(self).accounts@[idx].0
                &&& final(self).accounts@[idx].1.address == old(self).accounts@[idx].1.address
                &&& final(self).accounts@[idx].1.nonce@ == old(self).accounts@[idx].1.nonce@ + 1
                &&& final(self).accounts@[idx].1.balance == old(self).accounts@[idx].1.balance
                &&& final(self).accounts@[idx].1.code == old(self).accounts@[idx].1.code
                &&& final(self).accounts@[idx].1.storage == old(self).accounts@[idx].1.storage
                &&& forall|j: int|
                    0 <= j < old(self).accounts@.len() && j != idx ==> final(self).accounts@[j]
                        == old(self).accounts@[j]
            }),
    {
        let owned: String = alias.to_owned();
        let mut i: usize = 0;
        while i < self.accounts.len()
            invariant
                i <= self.accounts@.len(),
                old(self).wf(),
                has_named(old(self).accounts@, alias@),
                account_nonce_at(old(self).accounts@, named_index(old(self).accounts@, alias@))
                    < Word256::max_value(),
                self.blocks == old(self).blocks,
                self.accounts@ == old(self).accounts@,
                self.counter == old(self).counter,
                self.transactions == old(self).transactions,
                owned@ == alias@,
                forall|j: int| 0 <= j < i ==> !is_named(self.accounts@[j].0, alias@),
            decreases self.accounts@.len() - i,
        {
            let mut hit: bool = false;
            match &self.accounts[i].0 {
                Alias::Named(n) => {
                    if *n == owned {
                        hit = true;
                    }
                },
                Alias::Contract(_) => {},
            }
            if hit {
                proof {
                    lemma_named_index(old(self).accounts@, alias@);
                    assert(named_index(old(self).accounts@, alias@) == i as int);
                }
                let next = self.accounts[i].1.nonce.inc();
                self.accounts[i].1.nonce = next;
                proof {
                    let s0 = old(self).accounts@;
                    let s1 = self.accounts@;
                    assert(forall|j: int| 0 <= j < s1.len() ==> s1[j].0 == s0[j].0);
                    assert(forall|j: int|
                        0 <= j < s1.len() ==> #[trigger] s1[j].1.address == s0[j].1.address);
                    assert(forall|j: int|
                        0 <= j < s1.len() ==> #[trigger] s1[j].1.storage == s0[j].1.storage);
                    assert(addrs_unique(s1));
                    assert(aliases_unique(s1));
                }
                return ;
            }
            i = i + 1;
        }
        proof {
            lemma_named_index(old(self).accounts@, alias@);
            assert(false);
        }
    }

    /// Files the transaction and its execution result in the audit log
    /// under the transaction's content hash, and returns that hash as the
    /// transaction's canonical identifier. A hash already present has its
    /// entry replaced: the log keeps one entry per hash, last write wins.
    pub fn add_transactions(&mut self, transaction: Transaction, result: ResultData) -> (r:
        Word256)
        requires
            old(self).wf(),
        ensures
            final(self).wf(),
            final(self).blocks == old(self).blocks,
            final(self).accounts == old(self).accounts,
            final(self).counter == old(self).counter,
            r == transaction.hash_spec(),
            final(self).transactions@ == if has_tx(old(self).transactions@, r) {
                old(self).transactions@.update(
                    tx_index(old(self).transactions@, r),
                    (r, transaction, result),
                )
            } else {
                old(self).transactions@.push((r, transaction, result))
            },
    {
        let txhash = transaction.hash();
        let ghost t0 = self.transactions@;
        let mut i: usize = 0;
        while i < self.transactions.len()
            invariant
                i <= self.transactions@.len(),
                old(self).wf(),
                self.blocks == old(self).blocks,
                self.accounts == old(self).accounts,
                self.counter == old(self).counter,
                self.transactions == old(self).transactions,
                txhash == transaction.hash_spec(),
                forall|j: int| 0 <= j < i ==> old(self).transactions@[j].0 != txhash,
            decreases self.transactions@.len() - i,
        {
            if self.transactions[i].0 == txhash {
                proof {
                    lemma_tx_index(old(self).transactions@, txhash);
                }
                self.transactions[i] = (txhash, transaction, result);
                proof {
                    let s0 = old(self).transactions@;
                    let s1 = self.transactions@;
                    assert(s1 =~= s0.update(tx_index(s0, txhash), s1[i as int]));
                    assert(forall|j: int| 0 <= j < s1.len() ==> s1[j].0 == s0[j].0);
                    assert(txs_unique(s1));
                }
                return txhash;
            }
            i = i + 1;
        }
        self.transactions.push((txhash, transaction, result));
        proof {
            let s0 = old(self).transactions@;
            let s1 = self.transactions@;
            assert(forall|j: int| 0 <= j < s0.len() ==> s1[j] == s0[j]);
            assert(txs_unique(s1));
        }
        txhash
    }

    /// The transaction and execution result filed under the hash; the
    /// caller knows the hash is present.
    pub fn get_transaction_details(&mut self, hash: &Word256) -> (r: Result<
        (Transaction, ResultData),
        Error,
    >)
        requires
            old(self).wf(),
            has_tx(old(self).transactions@, *hash),
        ensures
            final(self).blocks == old(self).blocks,
            final(self).accounts == old(self).accounts,
            final(self).counter == old(self).counter,
            final(self).transactions == old(self).transactions,
            ({
                let idx = tx_index(old(self).transactions@, *hash);
                r matches Ok(p) && tx_like(p.0, old(self).transactions@[idx].1) && rd_like(
                    p.1,
                    old(self).transactions@[idx].2,
                )
            }),
    {
        let mut i: usize = 0;
        while i < self.transactions.len()
            invariant
                i <= self.transactions@.len(),
                old(self).wf(),
                has_tx(old(self).transactions@, *hash),
                self.blocks == old(self).blocks,
                self.accounts == old(self).accounts,
                self.counter == old(self).counter,
                self.transactions == old(self).transactions,
                forall|j: int| 0 <= j < i ==> self.transactions@[j].0 != *hash,
            decreases self.transactions@.len() - i,
        {
            if self.transactions[i].0 == *hash {
                proof {
                    lemma_tx_index(old(self).transactions@, *hash);
                }
                let t = crate::transaction::dup_transaction(&self.transactions[i].1);
                let d = crate::transaction::dup_result_data(&self.transactions[i].2);
                return Ok((t, d));
            }
            i = i + 1;
        }
        proof {
            lemma_tx_index(old(self).transactions@, *hash);
            assert(false);
        }
        Err(Error::InvalidAddress(Address { lo: 0, hi: 0 }))
    }
}

/// The nonce of the entry at the index, as a number.
pub open spec fn account_nonce_at(s: Seq<(Alias, Account)>, i: int) -> nat {
    s[i].1.nonce@
}

} // verus!
