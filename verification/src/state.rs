//! The transient overlay cache an executor works against: lazily populated
//! from the backing ledger on first touch, dirty-tracked per account and per
//! storage slot, and flushed back through the provider interface by
//! `update_state`. Discarding an overlay without flushing is a rollback: no
//! partial write ever reaches the ledger before then.

use crate::account::{has_slot, slot_value};
use crate::blockchain::{account_of, addr_index, addrs_unique, has_addr, Blockchain};
use crate::codec::copy_bytes;
use crate::words::{Address, Word256};
use crate::Error;
use vstd::prelude::*;

verus! {

/// One cached storage slot: key, staged value, and whether the value was
/// assigned since the last flush.
pub type CachedSlot = (Word256, Word256, bool);

/// One cache entry: address, cached account mirror, and whether balance,
/// nonce or code were assigned since the last flush.
pub type CacheEntry = (Address, AccountInfo, bool);

/// The keys of a cached slot list are pairwise distinct.
pub open spec fn cslots_unique(s: Seq<CachedSlot>) -> bool {
    forall|i: int, j: int| 0 <= i < j < s.len() ==> s[i].0 != s[j].0
}

/// Some cached slot holds the key.
pub open spec fn has_cslot(s: Seq<CachedSlot>, k: Word256) -> bool {
    exists|i: int| 0 <= i < s.len() && s[i].0 == k
}

/// The index of the cached slot holding the key.
pub open spec fn cslot_index(s: Seq<CachedSlot>, k: Word256) -> int {
    choose|i: int| 0 <= i < s.len() && s[i].0 == k
}

/// The staged value under the key.
pub open spec fn cslot_value(s: Seq<CachedSlot>, k: Word256) -> Word256 {
    s[cslot_index(s, k)].1
}

/// Whether the slot under the key is dirty.
pub open spec fn cslot_dirty(s: Seq<CachedSlot>, k: Word256) -> bool {
    s[cslot_index(s, k)].2
}

/// The key is held by a dirty slot.
pub open spec fn dirty_cslot(s: Seq<CachedSlot>, k: Word256) -> bool {
    has_cslot(s, k) && cslot_dirty(s, k)
}

/// Some cached slot is dirty.
pub open spec fn has_dirty_cslot(s: Seq<CachedSlot>) -> bool {
    exists|i: int| 0 <= i < s.len() && s[i].2
}

/// With distinct keys, the slot holding a key is the only one that does.
pub proof fn lemma_cslot_index(s: Seq<CachedSlot>, k: Word256)
    requires
        cslots_unique(s),
        has_cslot(s, k),
    ensures
        0 <= cslot_index(s, k) < s.len(),
        s[cslot_index(s, k)].0 == k,
        forall|i: int| 0 <= i < s.len() && s[i].0 == k ==> i == cslot_index(s, k),
{
    let w = cslot_index(s, k);
    assert(0 <= w < s.len() && s[w].0 == k);
    assert forall|i: int| 0 <= i < s.len() && s[i].0 == k implies i == w by {
        if i < w {
            assert(s[i].0 != s[w].0);
        } else if w < i {
            assert(s[w].0 != s[i].0);
        }
    }
}

/// The addresses of the cache are pairwise distinct.
pub open spec fn centries_unique(s: Seq<CacheEntry>) -> bool {
    forall|i: int, j: int| 0 <= i < j < s.len() ==> s[i].0 != s[j].0
}

/// The address has been touched: some cache entry holds it.
pub open spec fn cached(s: Seq<CacheEntry>, a: Address) -> bool {
    exists|i: int| 0 <= i < s.len() && s[i].0 == a
}

/// The index of the cache entry holding the address.
pub open spec fn cache_index(s: Seq<CacheEntry>, a: Address) -> int {
    choose|i: int| 0 <= i < s.len() && s[i].0 == a
}

/// The cached mirror of the account at the address.
pub open spec fn info_of(s: Seq<CacheEntry>, a: Address) -> AccountInfo {
    s[cache_index(s, a)].1
}

/// Whether the entry at the address is account-dirty.
pub open spec fn acct_dirty(s: Seq<CacheEntry>, a: Address) -> bool {
    s[cache_index(s, a)].2
}

/// With distinct addresses, the entry holding an address is the only one.
pub proof fn lemma_cache_index(s: Seq<CacheEntry>, a: Address)
    requires
        centries_unique(s),
        cached(s, a),
    ensures
        0 <= cache_index(s, a) < s.len(),
        s[cache_index(s, a)].0 == a,
        forall|i: int| 0 <= i < s.len() && s[i].0 == a ==> i == cache_index(s, a),
{
    let w = cache_index(s, a);
    assert(0 <= w < s.len() && s[w].0 == a);
    assert forall|i: int| 0 <= i < s.len() && s[i].0 == a implies i == w by {
        if i < w {
            assert(s[i].0 != s[w].0);
        } else if w < i {
            assert(s[w].0 != s[i].0);
        }
    }
}

/// The balance the ledger holds at the address — zero when no account does.
pub open spec fn provider_balance(l: Blockchain, a: Address) -> Word256 {
    if has_addr(l.accounts@, a) {
        account_of(l.accounts@, a).balance
    } else {
        Word256 { lo: 0, hi: 0 }
    }
}

/// The nonce the ledger holds at the address — zero when no account does:
/// the one canonical default for a never-seen account.
pub open spec fn provider_nonce(l: Blockchain, a: Address) -> Word256 {
    if has_addr(l.accounts@, a) {
        account_of(l.accounts@, a).nonce
    } else {
        Word256 { lo: 0, hi: 0 }
    }
}

/// The code the ledger holds at the address — empty when no account does.
pub open spec fn provider_code(l: Blockchain, a: Address) -> Seq<u8> {
    if has_addr(l.accounts@, a) {
        account_of(l.accounts@, a).code@
    } else {
        Seq::empty()
    }
}

/// The storage value the ledger holds at the address and key — zero when
/// nothing was ever written there.
pub open spec fn provider_slot(l: Blockchain, a: Address, k: Word256) -> Word256 {
    if has_addr(l.accounts@, a) && has_slot(account_of(l.accounts@, a).storage@, k) {
        slot_value(account_of(l.accounts@, a).storage@, k)
    } else {
        Word256 { lo: 0, hi: 0 }
    }
}

/// The cached mirror of one account. Its storage maps a key to the staged
/// value and that slot's dirty flag.
#[derive(Debug)]
pub struct AccountInfo {
    pub nonce: Word256,
    pub balance: Word256,
    pub code: Vec<u8>,
    pub storage: Vec<CachedSlot>,
}

impl AccountInfo {
    /// A mirror with no storage slot touched yet.
    pub fn new(nonce: Word256, balance: Word256, code: Vec<u8>) -> (r: AccountInfo)
        ensures
            r.nonce == nonce,
            r.balance == balance,
            r.code == code,
            r.storage@ == Seq::<CachedSlot>::empty(),
    {
        AccountInfo { nonce, balance, code, storage: Vec::new() }
    }

    /// The staged value and dirty flag under `key`, if the slot was ever
    /// cached.
    pub fn slot_lookup(&self, key: &Word256) -> (r: Option<Word256>)
        requires
            cslots_unique(self.storage@),
        ensures
            match r {
                Some(v) => has_cslot(self.storage@, *key) && v == cslot_value(
                    self.storage@,
                    *key,
                ),
                None => !has_cslot(self.storage@, *key),
            },
    {
        let mut i: usize = 0;
        while i < self.storage.len()
            invariant
                i <= self.storage@.len(),
                cslots_unique(self.storage@),
                forall|j: int| 0 <= j < i ==> self.storage@[j].0 != *key,
            decreases self.storage@.len() - i,
        {
            if self.storage[i].0 == *key {
                proof {
                    lemma_cslot_index(self.storage@, *key);
                }
                return Some(self.storage[i].1);
            }
            i = i + 1;
        }
        None
    }

    /// Stages `value` under `key` with the given dirty flag, replacing the
    /// slot if one is cached and adding one otherwise. Nothing else about
    /// the mirror changes.
    pub fn slot_stage(&mut self, key: &Word256, value: &Word256, mark_dirty: bool)
        requires
            cslots_unique(old(self).storage@),
        ensures
            cslots_unique(final(self).storage@),
            final(self).nonce == old(self).nonce,
            final(self).balance == old(self).balance,
            final(self).code == old(self).code,
            has_cslot(final(self).storage@, *key),
            cslot_value(final(self).storage@, *key) == *value,
            cslot_dirty(final(self).storage@, *key) == mark_dirty,
            final(self).storage@.len() == old(self).storage@.len() + (if has_cslot(
                old(self).storage@,
                *key,
            ) {
                0int
            } else {
                1int
            }),
            forall|k2: Word256|
                k2 != *key ==> (has_cslot(final(self).storage@, k2) == has_cslot(
                    old(self).storage@,
                    k2,
                ) && (has_cslot(old(self).storage@, k2) ==> cslot_value(final(self).storage@, k2)
                    == cslot_value(old(self).storage@, k2) && cslot_dirty(
                    final(self).storage@,
                    k2,
                ) == cslot_dirty(old(self).storage@, k2))),
    {
        let ghost s0 = self.storage@;
        let mut i: usize = 0;
        while i < self.storage.len()
            invariant
                i <= self.storage@.len(),
                self.storage@ == s0,
                s0 == old(self).storage@,
                self.nonce == old(self).nonce,
                self.balance == old(self).balance,
                self.code == old(self).code,
                cslots_unique(s0),
                forall|j: int| 0 <= j < i ==> s0[j].0 != *key,
            decreases self.storage@.len() - i,
        {
            if self.storage[i].0 == *key {
                proof {
                    lemma_cslot_index(s0, *key);
                }
                self.storage[i] = (*key, *value, mark_dirty);
                proof {
                    let s1 = self.storage@;
                    assert(s1 == s0.update(i as int, (*key, *value, mark_dirty)));
                    assert(cslots_unique(s1));
                    assert(s1[i as int].0 == *key);
                    lemma_cslot_index(s1, *key);
                    assert forall|k2: Word256| k2 != *key implies (has_cslot(s1, k2) == has_cslot(
                        s0,
                        k2,
                    ) && (has_cslot(s0, k2) ==> cslot_value(s1, k2) == cslot_value(s0, k2)
                        && cslot_dirty(s1, k2) == cslot_dirty(s0, k2))) by {
                        if has_cslot(s0, k2) {
                            lemma_cslot_index(s0, k2);
                            let w = cslot_index(s0, k2);
                            assert(w != i as int);
                            assert(s1[w] == s0[w]);
                            assert(has_cslot(s1, k2));
                            lemma_cslot_index(s1, k2);
                            assert(cslot_index(s1, k2) == w);
                        }
                        if has_cslot(s1, k2) {
                            let w = cslot_index(s1, k2);
                            assert(0 <= w < s1.len() && s1[w].0 == k2);
                            assert(w != i as int);
                            assert(s0[w].0 == k2);
                            assert(has_cslot(s0, k2));
                        }
                    }
                }
                return ;
            }
            i = i + 1;
        }
        self.storage.push((*key, *value, mark_dirty));
        proof {
            let s1 = self.storage@;
            assert(s1 == s0.push((*key, *value, mark_dirty)));
            assert(s1[s0.len() as int].0 == *key);
            assert(forall|j: int| 0 <= j < s0.len() ==> s1[j] == s0[j]);
            assert(cslots_unique(s1));
            assert(has_cslot(s1, *key));
            lemma_cslot_index(s1, *key);
            assert forall|k2: Word256| k2 != *key implies (has_cslot(s1, k2) == has_cslot(s0, k2)
                && (has_cslot(s0, k2) ==> cslot_value(s1, k2) == cslot_value(s0, k2) && cslot_dirty(
                s1,
                k2,
            ) == cslot_dirty(s0, k2))) by {
                if has_cslot(s0, k2) {
                    lemma_cslot_index(s0, k2);
                    let w = cslot_index(s0, k2);
                    assert(s1[w] == s0[w]);
                    assert(has_cslot(s1, k2));
                    lemma_cslot_index(s1, k2);
                    assert(cslot_index(s1, k2) == w);
                }
                if has_cslot(s1, k2) {
                    let w = cslot_index(s1, k2);
                    assert(0 <= w < s1.len() && s1[w].0 == k2);
                    assert(w != s0.len() as int);
                    assert(has_cslot(s0, k2));
                }
            }
        }
    }
}

/// The overlay cache: the accounts touched so far, each with its dirty
/// flag. An entry exists exactly for the addresses read or written since
/// the overlay was made.
#[derive(Debug)]
pub struct State {
    pub accounts: Vec<CacheEntry>,
}

impl State {
    /// The overlay's standing invariant: touched addresses are pairwise
    /// distinct and every cached slot list has distinct keys.
    pub open spec fn wf(self) -> bool {
        &&& centries_unique(self.accounts@)
        &&& forall|i: int|
            0 <= i < self.accounts@.len() ==> cslots_unique(
                (#[trigger] self.accounts@[i]).1.storage@,
            )
    }

    /// Nothing is staged in the entry: neither the account nor any slot is
    /// dirty.
    pub open spec fn entry_clean(e: CacheEntry) -> bool {
        &&& !e.2
        &&& forall|j: int| 0 <= j < e.1.storage@.len() ==> !(#[trigger] e.1.storage@[j]).2
    }

    /// Nothing is staged anywhere: a flush would be a no-op.
    pub open spec fn clean(self) -> bool {
        forall|i: int| 0 <= i < self.accounts@.len() ==> State::entry_clean(
            #[trigger] self.accounts@[i],
        )
    }

    /// A fresh overlay with nothing touched.
    pub fn new() -> (r: State)
        ensures
            r.accounts@ == Seq::<CacheEntry>::empty(),
            r.wf(),
            r.clean(),
    {
        State { accounts: Vec::new() }
    }

    /// Pulls the address into the cache on first touch: a touched address
    /// keeps its entry untouched; an untouched one gains a clean entry
    /// holding the ledger's values, or the default account (zero balance,
    /// zero nonce, empty code) when the ledger has none — reading never
    /// fails and never stages a write. Returns the entry's index.
    fn ensure_cached(&mut self, provider: &Blockchain, address: &Address) -> (idx: usize)
        requires
            old(self).wf(),
            provider.wf(),
        ensures
            final(self).wf(),
            cached(final(self).accounts@, *address),
            idx == cache_index(final(self).accounts@, *address),
            0 <= idx < final(self).accounts@.len(),
            final(self).accounts@[idx as int].0 == *address,
            if cached(old(self).accounts@, *address) {
                final(self).accounts == old(self).accounts
            } else {
                &&& final(self).accounts@.len() == old(self).accounts@.len() + 1
                &&& forall|j: int|
                    0 <= j < old(self).accounts@.len() ==> final(self).accounts@[j] == old(
                        self,
                    ).accounts@[j]
                &&& final(self).accounts@.last().0 == *address
                &&& final(self).accounts@.last().1.balance == provider_balance(*provider, *address)
                &&& final(self).accounts@.last().1.nonce == provider_nonce(*provider, *address)
                &&& final(self).accounts@.last().1.code@ == provider_code(*provider, *address)
                &&& final(self).accounts@.last().1.storage@.len() == 0
                &&& final(self).accounts@.last().2 == false
            },
    {
        let mut i: usize = 0;
        while i < self.accounts.len()
            invariant
                i <= self.accounts@.len(),
                old(self).wf(),
                self.accounts == old(self).accounts,
                forall|j: int| 0 <= j < i ==> self.accounts@[j].0 != *address,
            decreases self.accounts@.len() - i,
        {
            if self.accounts[i].0 == *address {
                proof {
                    lemma_cache_index(self.accounts@, *address);
                }
                return i;
            }
            i = i + 1;
        }
        let info = match provider.account(address) {
            Ok(sa) => AccountInfo::new(sa.nonce, sa.balance, sa.code),
            Err(_) => AccountInfo::new(Word256::zero(), Word256::zero(), Vec::new()),
        };
        let idx = self.accounts.len();
        self.accounts.push((*address, info, false));
        proof {
            let s0 = old(self).accounts@;
            let s1 = self.accounts@;
            assert(forall|j: int| 0 <= j < s0.len() ==> s1[j] == s0[j]);
            assert(centries_unique(s1));
            assert(s1[idx as int].0 == *address);
            lemma_cache_index(s1, *address);
        }
        idx
    }

    /// The balance the overlay observes at the address: the cached value if
    /// the address was touched, otherwise the ledger's value, otherwise the
    /// default zero. A never-seen address is served the default without an
    /// error and without staging a write.
    pub fn balance(&mut self, provider: &Blockchain, address: &Address) -> (r: Result<
        Word256,
        Error,
    >)
        requires
            old(self).wf(),
            provider.wf(),
        ensures
            final(self).wf(),
            r matches Ok(v) && v == (if cached(old(self).accounts@, *address) {
                info_of(old(self).accounts@, *address).balance
            } else {
                provider_balance(*provider, *address)
            }),
            cached(final(self).accounts@, *address),
            if cached(old(self).accounts@, *address) {
                final(self).accounts == old(self).accounts
            } else {
                &&& final(self).accounts@.len() == old(self).accounts@.len() + 1
                &&& forall|j: int|
                    0 <= j < old(self).accounts@.len() ==> final(self).accounts@[j] == old(
                        self,
                    ).accounts@[j]
                &&& final(self).accounts@.last().0 == *address
                &&& State::entry_clean(final(self).accounts@.last())
            },
    {
        let i = self.ensure_cached(provider, address);
        Ok(self.accounts[i].1.balance)
    }

    /// The nonce the overlay observes at the address; lazy exactly as
    /// `balance` is, with the default zero nonce for a never-seen account.
    pub fn nonce(&mut self, provider: &Blockchain, address: &Address) -> (r: Result<
        Word256,
        Error,
    >)
        requires
            old(self).wf(),
            provider.wf(),
        ensures
            final(self).wf(),
            r matches Ok(v) && v == (if cached(old(self).accounts@, *address) {
                info_of(old(self).accounts@, *address).nonce
            } else {
                provider_nonce(*provider, *address)
            }),
            cached(final(self).accounts@, *address),
            if cached(old(self).accounts@, *address) {
                final(self).accounts == old(self).accounts
            } else {
                &&& final(self).accounts@.len() == old(self).accounts@.len() + 1
                &&& forall|j: int|
                    0 <= j < old(self).accounts@.len() ==> final(self).accounts@[j] == old(
                        self,
                    ).accounts@[j]
                &&& final(self).accounts@.last().0 == *address
                &&& State::entry_clean(final(self).accounts@.last())
            },
    {
        let i = self.ensure_cached(provider, address);
        Ok(self.accounts[i].1.nonce)
    }

    /// Whether the ledger knows the address; asked of the provider
    /// directly, never cached.
    pub fn exist(&self, provider: &Blockchain, address: &Address) -> (r: bool)
        ensures
            r == has_addr(provider.accounts@, *address),
    {
        provider.exist(address)
    }

    /// The storage value the overlay observes at the address and key: the
    /// staged value if the slot was touched, otherwise the ledger's value,
    /// otherwise the logical zero. A ledger miss is recovered here — it is
    /// cached as a clean zero and never surfaced as a failure.
    pub fn storage_at(&mut self, provider: &Blockchain, address: &Address, key: &Word256) -> (r:
        Result<Word256, Error>)
        requires
            old(self).wf(),
            provider.wf(),
        ensures
            final(self).wf(),
            r matches Ok(v) && v == observed_slot(old(self).accounts@, *provider, *address, *key),
            frame_except(old(self).accounts@, final(self).accounts@, *address),
            ({
                let e0 = old(self).accounts@;
                let e1 = final(self).accounts@;
                let st1 = info_of(e1, *address).storage@;
                &&& has_cslot(st1, *key)
                &&& cslot_value(st1, *key) == observed_slot(e0, *provider, *address, *key)
                &&& cslot_dirty(st1, *key) == (cached(e0, *address) && has_cslot(
                    info_of(e0, *address).storage@,
                    *key,
                ) && cslot_dirty(info_of(e0, *address).storage@, *key))
                &&& info_of(e1, *address).balance == observed_balance(e0, *provider, *address)
                &&& info_of(e1, *address).nonce == observed_nonce(e0, *provider, *address)
                &&& info_of(e1, *address).code@ == observed_code(e0, *provider, *address)
                &&& acct_dirty(e1, *address) == (cached(e0, *address) && acct_dirty(e0, *address))
                &&& forall|k2: Word256|
                    k2 != *key && cached(e0, *address) ==> (has_cslot(st1, k2) == has_cslot(
                        info_of(e0, *address).storage@,
                        k2,
                    ) && (has_cslot(info_of(e0, *address).storage@, k2) ==> cslot_value(st1, k2)
                        == cslot_value(info_of(e0, *address).storage@, k2) && cslot_dirty(st1, k2)
                        == cslot_dirty(info_of(e0, *address).storage@, k2)))
                &&& forall|k2: Word256|
                    k2 != *key && !cached(e0, *address) ==> !has_cslot(st1, k2)
            }),
    {
        let i = self.ensure_cached(provider, address);
        let looked = self.accounts[i].1.slot_lookup(key);
        match looked {
            Some(v) => {
                proof {
                    lemma_cache_index(self.accounts@, *address);
                }
                Ok(v)
            },
            None => {
                let v = match provider.storage_at(address, key) {
                    Ok(v) => v,
                    Err(_) => Word256::zero(),
                };
                let ghost mid = self.accounts@;
                let entry = &mut self.accounts[i].1;
                entry.slot_stage(key, &v, false);
                proof {
                    let e1 = self.accounts@;
                    assert(e1 =~= mid.update(i as int, (mid[i as int].0, e1[i as int].1, mid[
                        i as int].2)));
                    assert(centries_unique(e1));
                    lemma_cache_index(e1, *address);
                    assert(cache_index(e1, *address) == i as int);
                }
                Ok(v)
            },
        }
    }

    /// Stages `value` under `key` for the address — the slot is marked
    /// dirty unconditionally, even when the value equals what was already
    /// cached. The account's own dirty flag does not move: storage is
    /// flushed regardless of it.
    pub fn set_storage(&mut self, provider: &Blockchain, address: &Address, key: &Word256, value:
        &Word256)
        requires
            old(self).wf(),
            provider.wf(),
        ensures
            final(self).wf(),
            frame_except(old(self).accounts@, final(self).accounts@, *address),
            ({
                let e0 = old(self).accounts@;
                let e1 = final(self).accounts@;
                let st1 = info_of(e1, *address).storage@;
                &&& has_cslot(st1, *key)
                &&& cslot_value(st1, *key) == *value
                &&& cslot_dirty(st1, *key) == true
                &&& info_of(e1, *address).balance == observed_balance(e0, *provider, *address)
                &&& info_of(e1, *address).nonce == observed_nonce(e0, *provider, *address)
                &&& info_of(e1, *address).code@ == observed_code(e0, *provider, *address)
                &&& acct_dirty(e1, *address) == (cached(e0, *address) && acct_dirty(e0, *address))
                &&& forall|k2: Word256|
                    k2 != *key && cached(e0, *address) ==> (has_cslot(st1, k2) == has_cslot(
                        info_of(e0, *address).storage@,
                        k2,
                    ) && (has_cslot(info_of(e0, *address).storage@, k2) ==> cslot_value(st1, k2)
                        == cslot_value(info_of(e0, *address).storage@, k2) && cslot_dirty(st1, k2)
                        == cslot_dirty(info_of(e0, *address).storage@, k2)))
                &&& forall|k2: Word256|
                    k2 != *key && !cached(e0, *address) ==> !has_cslot(st1, k2)
            }),
    {
        let i = self.ensure_cached(provider, address);
        let ghost mid = self.accounts@;
        let entry = &mut self.accounts[i].1;
        entry.slot_stage(key, value, true);
        proof {
            let e1 = self.accounts@;
            assert(e1 =~= mid.update(i as int, (mid[i as int].0, e1[i as int].1, mid[i as int].2)));
            assert(centries_unique(e1));
            lemma_cache_index(e1, *address);
            assert(cache_index(e1, *address) == i as int);
        }
    }

    /// Stages `code` for the address and marks the account dirty; used
    /// once per contract-creation execution.
    pub fn init_code(&mut self, provider: &Blockchain, address: &Address, code: Vec<u8>)
        requires
            old(self).wf(),
            provider.wf(),
        ensures
            final(self).wf(),
            frame_except(old(self).accounts@, final(self).accounts@, *address),
            ({
                let e0 = old(self).accounts@;
                let e1 = final(self).accounts@;
                &&& info_of(e1, *address).code@ == code@
                &&& info_of(e1, *address).balance == observed_balance(e0, *provider, *address)
                &&& info_of(e1, *address).nonce == observed_nonce(e0, *provider, *address)
                &&& acct_dirty(e1, *address) == true
                &&& entry_storage_same(e0, e1, *address)
            }),
    {
        let i = self.ensure_cached(provider, address);
        let ghost mid = self.accounts@;
        self.accounts[i].1.code = code;
        self.accounts[i].2 = true;
        proof {
            self.lemma_entry_field_update(mid, i as int, *address);
        }
    }

    /// Stages a new balance for the address and marks the account dirty.
    pub fn set_balance(&mut self, provider: &Blockchain, address: &Address, value: &Word256)
        requires
            old(self).wf(),
            provider.wf(),
        ensures
            final(self).wf(),
            frame_except(old(self).accounts@, final(self).accounts@, *address),
            ({
                let e0 = old(self).accounts@;
                let e1 = final(self).accounts@;
                &&& info_of(e1, *address).balance == *value
                &&& info_of(e1, *address).nonce == observed_nonce(e0, *provider, *address)
                &&& info_of(e1, *address).code@ == observed_code(e0, *provider, *address)
                &&& acct_dirty(e1, *address) == true
                &&& entry_storage_same(e0, e1, *address)
            }),
    {
        let i = self.ensure_cached(provider, address);
        let ghost mid = self.accounts@;
        self.accounts[i].1.balance = *value;
        self.accounts[i].2 = true;
        proof {
            self.lemma_entry_field_update(mid, i as int, *address);
        }
    }

    /// Stages a new nonce for the address and marks the account dirty.
    pub fn set_nonce(&mut self, provider: &Blockchain, address: &Address, value: &Word256)
        requires
            old(self).wf(),
            provider.wf(),
        ensures
            final(self).wf(),
            frame_except(old(self).accounts@, final(self).accounts@, *address),
            ({
                let e0 = old(self).accounts@;
                let e1 = final(self).accounts@;
                &&& info_of(e1, *address).nonce == *value
                &&& info_of(e1, *address).balance == observed_balance(e0, *provider, *address)
                &&& info_of(e1, *address).code@ == observed_code(e0, *provider, *address)
                &&& acct_dirty(e1, *address) == true
                &&& entry_storage_same(e0, e1, *address)
            }),
    {
        let i = self.ensure_cached(provider, address);
        let ghost mid = self.accounts@;
        self.accounts[i].1.nonce = *value;
        self.accounts[i].2 = true;
        proof {
            self.lemma_entry_field_update(mid, i as int, *address);
        }
    }

    /// Common frame proof for a mutation of the entry at `idx` that keeps
    /// the entry's address.
    proof fn lemma_entry_field_update(&self, mid: Seq<CacheEntry>, idx: int, a: Address)
        requires
            centries_unique(mid),
            0 <= idx < mid.len(),
            mid[idx].0 == a,
            cache_index(mid, a) == idx,
            self.accounts@.len() == mid.len(),
            forall|j: int| 0 <= j < mid.len() && j != idx ==> self.accounts@[j] == mid[j],
            self.accounts@[idx].0 == a,
        ensures
            centries_unique(self.accounts@),
            cached(self.accounts@, a),
            cache_index(self.accounts@, a) == idx,
    {
        let e1 = self.accounts@;
        assert(forall|j: int| 0 <= j < e1.len() ==> e1[j].0 == mid[j].0);
        assert(centries_unique(e1));
        assert(e1[idx].0 == a);
        lemma_cache_index(e1, a);
    }

    /// The write-back protocol: flushes exactly the staged (dirty) state
    /// back through the provider interface, address by address in cache
    /// order. A dirty account unknown to the ledger is created (with its
    /// staged nonce and code); a known one has balance and nonce
    /// overwritten. Every dirty slot is then written, whether or not the
    /// account itself was dirty. The flags of an address are lowered only
    /// once all its writes landed, so on success a second immediate flush
    /// with no intervening writes is a no-op, and on failure the failing
    /// address keeps its flags for a retry. The one failure is a staged
    /// slot write against an address that neither exists in the ledger nor
    /// is being created: the flush stops there, earlier addresses stay
    /// flushed, later ones stay staged.
    #[verifier::loop_isolation(false)]
    #[verifier::rlimit(50)]
    pub fn update_state(&mut self, provider: &mut Blockchain) -> (r: Result<(), Error>)
        requires
            old(self).wf(),
            old(provider).wf(),
            old(provider).counter + old(self).accounts@.len() < u64::MAX,
        ensures
            final(self).wf(),
            final(provider).wf(),
            final(provider).blocks == old(provider).blocks,
            final(provider).transactions == old(provider).transactions,
            final(provider).counter >= old(provider).counter,
            final(self).accounts@.len() == old(self).accounts@.len(),
            (r matches Ok(p) && p == ()) <==> (forall|m: int|
                0 <= m < old(self).accounts@.len() ==> !entry_fails(
                    *old(provider),
                    #[trigger] old(self).accounts@[m],
                )),
            match r {
                Ok(()) => {
                    &&& committed_upto(
                        *old(provider),
                        *final(provider),
                        old(self).accounts@,
                        old(self).accounts@.len() as int,
                    )
                    &&& forall|m: int|
                        0 <= m < old(self).accounts@.len() ==> entry_cleaned(
                            old(self).accounts@[m],
                            #[trigger] final(self).accounts@[m],
                        )
                    &&& final(self).clean()
                },
                Err(e) => exists|p: int|
                    {
                        &&& 0 <= p < old(self).accounts@.len()
                        &&& entry_fails(*old(provider), #[trigger] old(self).accounts@[p])
                        &&& forall|m: int|
                            0 <= m < p ==> !entry_fails(
                                *old(provider),
                                #[trigger] old(self).accounts@[m],
                            )
                        &&& e == Error::InvalidAddress(old(self).accounts@[p].0)
                        &&& committed_upto(*old(provider), *final(provider), old(self).accounts@, p)
                        &&& forall|m: int|
                            0 <= m < p ==> entry_cleaned(
                                old(self).accounts@[m],
                                #[trigger] final(self).accounts@[m],
                            )
                        &&& forall|m: int|
                            p <= m < old(self).accounts@.len()
                                ==> (#[trigger] final(self).accounts@[m]) == old(self).accounts@[m]
                    },
            },
    {
        let ghost c = old(self).accounts@;
        let ghost l0 = *old(provider);
        let mut i: usize = 0;
        while i < self.accounts.len()
            invariant
                i <= c.len(),
                self.wf(),
                provider.wf(),
                self.accounts@.len() == c.len(),
                forall|m: int| i <= m < c.len() ==> #[trigger] self.accounts@[m] == c[m],
                forall|m: int|
                    0 <= m < i ==> entry_cleaned(c[m], #[trigger] self.accounts@[m]),
                forall|m: int| 0 <= m < i ==> !entry_fails(l0, #[trigger] c[m]),
                committed_upto(l0, *provider, c, i as int),
                provider.blocks == l0.blocks,
                provider.transactions == l0.transactions,
                l0.counter <= provider.counter,
                provider.counter <= l0.counter + i,
            decreases c.len() - i,
        {
            let ghost li = *provider;
            let addr: Address = self.accounts[i].0;
            let dirty: bool = self.accounts[i].2;
            let ghost cs = c[i as int].1.storage@;
            proof {
                assert(self.accounts@[i as int] == c[i as int]);
                assert(cslots_unique(cs));
                assert forall|m: int| 0 <= m < i implies (#[trigger] c[m]).0 != addr by {
                    assert(c[m].0 != c[i as int].0);
                }
                assert(untouched_at(l0, li, addr));
            }
            let known = provider.exist(&addr);
            if !dirty && !known {
                // No durable account and none being created: a staged slot
                // write cannot land. If nothing is staged either, the entry
                // is already in its flushed form.
                let mut j: usize = 0;
                while j < self.accounts[i].1.storage.len()
                    invariant
                        j <= cs.len(),
                        forall|t: int| 0 <= t < j ==> !(#[trigger] cs[t]).2,
                    decreases cs.len() - j,
                {
                    if self.accounts[i].1.storage[j].2 {
                        proof {
                            assert(entry_fails(l0, c[i as int]));
                        }
                        return Err(Error::InvalidAddress(addr));
                    }
                    j = j + 1;
                }
                proof {
                    assert(entry_cleaned(c[i as int], self.accounts@[i as int]));
                    assert(entry_committed(l0, *provider, c[i as int]));
                    assert forall|m: int| 0 <= m < i + 1 implies entry_committed(
                        l0,
                        *provider,
                        #[trigger] c[m],
                    ) by {}
                    assert(committed_upto(l0, *provider, c, i + 1));
                }
            } else {
                let ghost created = dirty && !known;
                let ghost s_base: Seq<(Word256, Word256)> = if created {
                    Seq::empty()
                } else {
                    account_of(l0.accounts@, addr).storage@
                };
                if dirty {
                    if !known {
                        let nonce = self.accounts[i].1.nonce;
                        let code = copy_bytes(&self.accounts[i].1.code);
                        let res = provider.create_contract(&addr, &nonce, &code);
                        match res {
                            Ok(()) => {},
                            Err(_) => {
                                proof {
                                    assert(false);
                                }
                                return Err(Error::InvalidAddress(addr));
                            },
                        }
                        proof {
                            lemma_untouched_push(li, *provider, addr);
                        }
                    } else {
                        let bal = self.accounts[i].1.balance;
                        let nonce = self.accounts[i].1.nonce;
                        let res = provider.update_account(&addr, &bal, &nonce);
                        match res {
                            Ok(()) => {},
                            Err(_) => {
                                proof {
                                    assert(false);
                                }
                                return Err(Error::InvalidAddress(addr));
                            },
                        }
                        proof {
                            let sa = li.accounts@;
                            let sb = provider.accounts@;
                            let widx = addr_index(sa, addr);
                            crate::blockchain::lemma_addr_index(sa, addr);
                            assert(forall|j: int|
                                0 <= j < sa.len() ==> (#[trigger] sb[j]).1.address == sa[
                                j].1.address);
                            lemma_untouched_frame(li, *provider, addr);
                            assert(sb[widx].1.address == addr);
                            assert(has_addr(sb, addr));
                            crate::blockchain::lemma_addr_index(sb, addr);
                            assert(addr_index(sb, addr) == widx);
                            assert(account_of(sb, addr) == sb[widx].1);
                        }
                    }
                }
                proof {
                    assert(has_addr(provider.accounts@, addr));
                    if !created {
                        assert(account_of(li.accounts@, addr) == account_of(l0.accounts@, addr));
                    }
                }
                // Write every dirty staged slot, whether or not the account
                // itself was dirty.
                let mut j: usize = 0;
                while j < self.accounts[i].1.storage.len()
                    invariant
                        j <= cs.len(),
                        provider.wf(),
                        provider.blocks == l0.blocks,
                        provider.transactions == l0.transactions,
                        provider.counter <= l0.counter + i + 1,
                        l0.counter <= provider.counter,
                        forall|a: Address| a != addr ==> #[trigger] untouched_at(li, *provider, a),
                        has_addr(provider.accounts@, addr),
                        created ==> account_of(provider.accounts@, addr).balance@ == 0
                            && account_of(provider.accounts@, addr).nonce == c[i as int].1.nonce
                            && account_of(provider.accounts@, addr).code@ == c[i as int].1.code@,
                        (dirty && !created) ==> account_of(provider.accounts@, addr).balance == c[
                            i as int].1.balance && account_of(provider.accounts@, addr).nonce == c[
                            i as int].1.nonce && account_of(provider.accounts@, addr).code
                            == account_of(l0.accounts@, addr).code,
                        !dirty ==> account_of(provider.accounts@, addr).balance == account_of(
                            l0.accounts@,
                            addr,
                        ).balance && account_of(provider.accounts@, addr).nonce == account_of(
                            l0.accounts@,
                            addr,
                        ).nonce && account_of(provider.accounts@, addr).code == account_of(
                            l0.accounts@,
                            addr,
                        ).code,
                        forall|t: int|
                            0 <= t < j && (#[trigger] cs[t]).2 ==> has_slot(
                                account_of(provider.accounts@, addr).storage@,
                                cs[t].0,
                            ) && slot_value(account_of(provider.accounts@, addr).storage@, cs[t].0)
                                == cs[t].1,
                        forall|k: Word256|
                            !in_dirty_prefix(cs, j as int, k) ==> (has_slot(
                                account_of(provider.accounts@, addr).storage@,
                                k,
                            ) == has_slot(s_base, k) && (has_slot(s_base, k) ==> slot_value(
                                account_of(provider.accounts@, addr).storage@,
                                k,
                            ) == slot_value(s_base, k))),
                    decreases cs.len() - j,
                {
                    let slot = self.accounts[i].1.storage[j];
                    if slot.2 {
                        let ghost lprev = *provider;
                        let res = provider.set_storage(&addr, &slot.0, &slot.1);
                        match res {
                            Ok(()) => {},
                            Err(_) => {
                                proof {
                                    assert(false);
                                }
                                return Err(Error::InvalidAddress(addr));
                            },
                        }
                        proof {
                            let sa = lprev.accounts@;
                            let sb = provider.accounts@;
                            crate::blockchain::lemma_addr_index(sa, addr);
                            let widx = addr_index(sa, addr);
                            assert(forall|t: int|
                                0 <= t < sa.len() && t != widx ==> #[trigger] sb[t] == sa[t]);
                            assert(forall|t: int|
                                0 <= t < sa.len() ==> (#[trigger] sb[t]).0 == sa[t].0);
                            assert forall|t: int|
                                0 <= t < sa.len() implies (#[trigger] sb[t]).1.address == sa[
                            t].1.address by {
                                if t == widx {
                                    crate::blockchain::lemma_addr_index(sb, addr);
                                    let w2 = addr_index(sb, addr);
                                    assert(w2 == widx);
                                    assert(sb[widx].1.address == addr);
                                } else {
                                    assert(sb[t] == sa[t]);
                                }
                            }
                            lemma_untouched_frame(lprev, *provider, addr);
                            assert forall|a: Address| a != addr implies #[trigger] untouched_at(
                                li,
                                *provider,
                                a,
                            ) by {
                                assert(untouched_at(li, lprev, a));
                                assert(untouched_at(lprev, *provider, a));
                            }
                            assert forall|t: int|
                                0 <= t < j + 1 && (#[trigger] cs[t]).2 implies has_slot(
                                account_of(provider.accounts@, addr).storage@,
                                cs[t].0,
                            ) && slot_value(account_of(provider.accounts@, addr).storage@, cs[t].0)
                                == cs[t].1 by {
                                if t < j {
                                    if cs[t].0 != cs[j as int].0 {
                                    } else {
                                        assert(t != j);
                                        assert(cs[t].0 != cs[j as int].0);
                                    }
                                }
                            }
                            assert forall|k: Word256|
                                !in_dirty_prefix(cs, j + 1, k) implies (has_slot(
                                account_of(provider.accounts@, addr).storage@,
                                k,
                            ) == has_slot(s_base, k) && (has_slot(s_base, k) ==> slot_value(
                                account_of(provider.accounts@, addr).storage@,
                                k,
                            ) == slot_value(s_base, k))) by {
                                assert(!in_dirty_prefix(cs, j as int, k));
                                assert(k != cs[j as int].0);
                            }
                        }
                    } else {
                        proof {
                            assert forall|t: int|
                                0 <= t < j + 1 && (#[trigger] cs[t]).2 implies has_slot(
                                account_of(provider.accounts@, addr).storage@,
                                cs[t].0,
                            ) && slot_value(account_of(provider.accounts@, addr).storage@, cs[t].0)
                                == cs[t].1 by {}
                            assert forall|k: Word256| !in_dirty_prefix(cs, j + 1, k) implies (
                            has_slot(account_of(provider.accounts@, addr).storage@, k) == has_slot(
                                s_base,
                                k,
                            ) && (has_slot(s_base, k) ==> slot_value(
                                account_of(provider.accounts@, addr).storage@,
                                k,
                            ) == slot_value(s_base, k))) by {
                                assert(!in_dirty_prefix(cs, j as int, k));
                            }
                        }
                    }
                    j = j + 1;
                }
                // All writes for this address landed: lower its flags.
                proof {
                    assert(storage_written(
                        s_base,
                        account_of(provider.accounts@, addr).storage@,
                        cs,
                    )) by {
                        assert forall|k: Word256| dirty_cslot(cs, k) implies has_slot(
                            account_of(provider.accounts@, addr).storage@,
                            k,
                        ) && slot_value(account_of(provider.accounts@, addr).storage@, k)
                            == cslot_value(cs, k) by {
                            lemma_cslot_index(cs, k);
                            let t = cslot_index(cs, k);
                            assert(cs[t].0 == k && cs[t].2);
                        }
                        assert forall|k: Word256| !dirty_cslot(cs, k) implies (has_slot(
                            account_of(provider.accounts@, addr).storage@,
                            k,
                        ) == has_slot(s_base, k) && (has_slot(s_base, k) ==> slot_value(
                            account_of(provider.accounts@, addr).storage@,
                            k,
                        ) == slot_value(s_base, k))) by {
                            if in_dirty_prefix(cs, cs.len() as int, k) {
                                let t = choose|t: int|
                                    0 <= t < cs.len() && (#[trigger] cs[t]).0 == k && cs[t].2;
                                assert(has_cslot(cs, k));
                                lemma_cslot_index(cs, k);
                                assert(cslot_index(cs, k) == t);
                                assert(cslot_dirty(cs, k));
                                assert(false);
                            }
                        }
                    }
                    assert(entry_committed(l0, *provider, c[i as int]));
                }
                self.accounts[i].2 = false;
                let ghost cmid = self.accounts@;
                let mut t: usize = 0;
                while t < self.accounts[i].1.storage.len()
                    invariant
                        t <= cs.len(),
                        self.accounts@.len() == c.len(),
                        forall|m: int|
                            0 <= m < c.len() && m != i ==> #[trigger] self.accounts@[m] == cmid[m],
                        self.accounts@[i as int].0 == addr,
                        !self.accounts@[i as int].2,
                        self.accounts@[i as int].1.nonce == c[i as int].1.nonce,
                        self.accounts@[i as int].1.balance == c[i as int].1.balance,
                        self.accounts@[i as int].1.code == c[i as int].1.code,
                        self.accounts@[i as int].1.storage@.len() == cs.len(),
                        forall|u: int|
                            0 <= u < t ==> (#[trigger] self.accounts@[i as int].1.storage@[u]).0
                                == cs[u].0 && self.accounts@[i as int].1.storage@[u].1 == cs[u].1
                                && !self.accounts@[i as int].1.storage@[u].2,
                        forall|u: int|
                            t <= u < cs.len() ==> #[trigger] self.accounts@[i as int].1.storage@[u]
                                == cs[u],
                    decreases cs.len() - t,
                {
                    let s = self.accounts[i].1.storage[t];
                    self.accounts[i].1.storage[t] = (s.0, s.1, false);
                    t = t + 1;
                }
                proof {
                    assert(entry_cleaned(c[i as int], self.accounts@[i as int]));
                    assert(self.wf()) by {
                        assert(forall|m: int|
                            0 <= m < c.len() ==> (#[trigger] self.accounts@[m]).0 == c[m].0);
                        assert(centries_unique(self.accounts@));
                        assert forall|m: int| 0 <= m < c.len() implies cslots_unique(
                            (#[trigger] self.accounts@[m]).1.storage@,
                        ) by {
                            if m == i as int {
                                let st = self.accounts@[m].1.storage@;
                                assert(forall|u: int|
                                    0 <= u < st.len() ==> (#[trigger] st[u]).0 == cs[u].0);
                            }
                        }
                    }
                    assert forall|m: int| 0 <= m < i + 1 implies entry_committed(
                        l0,
                        *provider,
                        #[trigger] c[m],
                    ) by {
                        if m < i {
                            assert(entry_committed(l0, li, c[m]));
                            assert(c[m].0 != addr);
                            assert(untouched_at(li, *provider, c[m].0));
                            lemma_entry_committed_stable(l0, li, *provider, c[m]);
                        }
                    }
                    assert forall|a: Address|
                        #![trigger untouched_at(l0, *provider, a)]
                        (forall|m: int| 0 <= m < i + 1 ==> (#[trigger] c[m]).0 != a) implies
                        untouched_at(l0, *provider, a) by {
                        assert(untouched_at(l0, li, a));
                        assert(a != addr);
                        assert(untouched_at(li, *provider, a));
                    }
                    assert(committed_upto(l0, *provider, c, i + 1));
                }
            }
            i = i + 1;
        }
        proof {
            assert forall|m: int| 0 <= m < c.len() implies !entry_fails(
                l0,
                #[trigger] c[m],
            ) by {}
            assert(self.clean()) by {
                assert forall|m: int| 0 <= m < c.len() implies State::entry_clean(
                    #[trigger] self.accounts@[m],
                ) by {
                    assert(entry_cleaned(c[m], self.accounts@[m]));
                }
            }
        }
        Ok(())
    }

    /// The block-context values the executor may ask for. In this core the
    /// ledger-wide timestamp is served as the present block height, as the
    /// height itself is.
    pub fn timestamp(&self, provider: &Blockchain) -> (r: u64)
        requires
            provider.wf(),
        ensures
            r == provider.blocks@.len() - 1,
    {
        provider.get_blocknumber() as u64
    }

    /// The present block height.
    pub fn block_number(&self, provider: &Blockchain) -> (r: u64)
        requires
            provider.wf(),
        ensures
            r == provider.blocks@.len() - 1,
    {
        provider.get_blocknumber() as u64
    }

    /// The hash of the committed block at the height; an out-of-range
    /// height is a caller error.
    pub fn block_hash(&self, provider: &Blockchain, block_no: u64) -> (r: Result<Word256, Error>)
        requires
            provider.wf(),
            block_no < provider.blocks@.len(),
        ensures
            r matches Ok(h) && h == provider.blocks@[block_no as int].hash_spec(),
    {
        proof {
            assert(provider.blocks@[provider.blocks@.len() - 1].num == provider.blocks@.len() - 1);
        }
        Ok(provider.blockhash(block_no as i64))
    }

    /// The block author: a fixed, ledger-wide constant in this core.
    pub fn block_author(&self) -> (r: Result<Address, Error>)
        ensures
            r matches Ok(a) && a == (Address { lo: 0, hi: 0 }),
    {
        Ok(Address { lo: 0, hi: 0 })
    }

    /// The difficulty: a fixed, ledger-wide constant in this core.
    pub fn difficulty(&self) -> (r: Result<Word256, Error>)
        ensures
            r matches Ok(d) && d@ == 0,
    {
        Ok(Word256::zero())
    }

    /// The gas limit: a fixed, ledger-wide constant in this core.
    pub fn gas_limit(&self) -> (r: Result<Word256, Error>)
        ensures
            r matches Ok(g) && g@ == 1000000,
    {
        Ok(Word256::from_u64(1000000))
    }
}

/// The balance the overlay observes for the address before any staging:
/// the cached value if touched, else the ledger's, else zero.
pub open spec fn observed_balance(c: Seq<CacheEntry>, l: Blockchain, a: Address) -> Word256 {
    if cached(c, a) {
        info_of(c, a).balance
    } else {
        provider_balance(l, a)
    }
}

/// The nonce the overlay observes for the address before any staging.
pub open spec fn observed_nonce(c: Seq<CacheEntry>, l: Blockchain, a: Address) -> Word256 {
    if cached(c, a) {
        info_of(c, a).nonce
    } else {
        provider_nonce(l, a)
    }
}

/// The code the overlay observes for the address before any staging.
pub open spec fn observed_code(c: Seq<CacheEntry>, l: Blockchain, a: Address) -> Seq<u8> {
    if cached(c, a) {
        info_of(c, a).code@
    } else {
        provider_code(l, a)
    }
}

/// The storage value the overlay observes at the address and key before
/// any staging: the staged slot if touched, else the ledger's value, else
/// zero.
pub open spec fn observed_slot(c: Seq<CacheEntry>, l: Blockchain, a: Address, k: Word256) -> Word256 {
    if cached(c, a) && has_cslot(info_of(c, a).storage@, k) {
        cslot_value(info_of(c, a).storage@, k)
    } else {
        provider_slot(l, a, k)
    }
}

/// A cache step touches at most the entry for `a`: a touched address keeps
/// its position, an untouched one gains the last position, and every other
/// entry is unchanged.
pub open spec fn frame_except(c0: Seq<CacheEntry>, c1: Seq<CacheEntry>, a: Address) -> bool {
    &&& cached(c1, a)
    &&& if cached(c0, a) {
        &&& c1.len() == c0.len()
        &&& cache_index(c1, a) == cache_index(c0, a)
        &&& forall|j: int| 0 <= j < c0.len() && j != cache_index(c0, a) ==> c1[j] == c0[j]
    } else {
        &&& c1.len() == c0.len() + 1
        &&& cache_index(c1, a) == c0.len()
        &&& forall|j: int| 0 <= j < c0.len() ==> c1[j] == c0[j]
    }
}

/// The entry for `a` keeps its cached storage, slot for slot.
pub open spec fn entry_storage_same(c0: Seq<CacheEntry>, c1: Seq<CacheEntry>, a: Address) -> bool {
    if cached(c0, a) {
        info_of(c1, a).storage@ == info_of(c0, a).storage@
    } else {
        info_of(c1, a).storage@.len() == 0
    }
}

/// The write-back for this entry cannot land: the entry stages storage
/// writes but neither marks the account dirty (which would create it) nor
/// finds it in the ledger.
pub open spec fn entry_fails(l: Blockchain, e: CacheEntry) -> bool {
    !e.2 && has_dirty_cslot(e.1.storage@) && !has_addr(l.accounts@, e.0)
}

/// The ledger holds the same durable account for `a` in both states.
pub open spec fn untouched_at(la: Blockchain, lb: Blockchain, a: Address) -> bool {
    &&& has_addr(lb.accounts@, a) == has_addr(la.accounts@, a)
    &&& (has_addr(la.accounts@, a) ==> account_of(lb.accounts@, a) == account_of(la.accounts@, a))
}

/// The durable storage `s1` is `s0` with exactly the dirty staged slots of
/// `cs` written over it.
pub open spec fn storage_written(
    s0: Seq<(Word256, Word256)>,
    s1: Seq<(Word256, Word256)>,
    cs: Seq<CachedSlot>,
) -> bool {
    &&& forall|k: Word256|
        dirty_cslot(cs, k) ==> has_slot(s1, k) && slot_value(s1, k) == cslot_value(cs, k)
    &&& forall|k: Word256|
        !dirty_cslot(cs, k) ==> (has_slot(s1, k) == has_slot(s0, k) && (has_slot(s0, k)
            ==> slot_value(s1, k) == slot_value(s0, k)))
}

/// What one flushed cache entry leaves in the ledger: a dirty entry for an
/// unknown address creates the account (zero balance, the staged nonce and
/// code); a dirty entry for a known address overwrites balance and nonce
/// (never the code: code is immutable after creation); a clean entry
/// touches nothing durable; and in every case exactly the dirty staged
/// slots are written into the account's storage.
pub open spec fn entry_committed(l0: Blockchain, l1: Blockchain, e: CacheEntry) -> bool {
    let a = e.0;
    &&& has_addr(l1.accounts@, a) == (has_addr(l0.accounts@, a) || e.2)
    &&& (e.2 && !has_addr(l0.accounts@, a) ==> {
        let acc = account_of(l1.accounts@, a);
        &&& acc.balance@ == 0
        &&& acc.nonce == e.1.nonce
        &&& acc.code@ == e.1.code@
        &&& storage_written(Seq::empty(), acc.storage@, e.1.storage@)
    })
    &&& (e.2 && has_addr(l0.accounts@, a) ==> {
        let acc = account_of(l1.accounts@, a);
        &&& acc.balance == e.1.balance
        &&& acc.nonce == e.1.nonce
        &&& acc.code == account_of(l0.accounts@, a).code
        &&& storage_written(account_of(l0.accounts@, a).storage@, acc.storage@, e.1.storage@)
    })
    &&& (!e.2 && has_addr(l0.accounts@, a) ==> {
        let acc = account_of(l1.accounts@, a);
        &&& acc.balance == account_of(l0.accounts@, a).balance
        &&& acc.nonce == account_of(l0.accounts@, a).nonce
        &&& acc.code == account_of(l0.accounts@, a).code
        &&& storage_written(account_of(l0.accounts@, a).storage@, acc.storage@, e.1.storage@)
    })
}

/// The ledger `l1` is `l0` with the first `p` cache entries flushed and
/// every other address untouched.
pub open spec fn committed_upto(l0: Blockchain, l1: Blockchain, c: Seq<CacheEntry>, p: int) -> bool {
    &&& forall|m: int| 0 <= m < p ==> entry_committed(l0, l1, #[trigger] c[m])
    &&& forall|a: Address|
        #![trigger untouched_at(l0, l1, a)]
        (forall|m: int| 0 <= m < p ==> (#[trigger] c[m]).0 != a) ==> untouched_at(l0, l1, a)
}

/// The flushed image of a cache entry: same address and values, every
/// dirty flag lowered.
pub open spec fn entry_cleaned(e0: CacheEntry, e1: CacheEntry) -> bool {
    &&& e1.0 == e0.0
    &&& e1.1.nonce == e0.1.nonce
    &&& e1.1.balance == e0.1.balance
    &&& e1.1.code == e0.1.code
    &&& !e1.2
    &&& e1.1.storage@.len() == e0.1.storage@.len()
    &&& forall|j: int|
        0 <= j < e0.1.storage@.len() ==> (#[trigger] e1.1.storage@[j]).0 == e0.1.storage@[j].0
            && e1.1.storage@[j].1 == e0.1.storage@[j].1 && !e1.1.storage@[j].2
}

/// An entry already committed stays committed while its address is left
/// alone in the ledger.
pub proof fn lemma_entry_committed_stable(l0: Blockchain, la: Blockchain, lb: Blockchain, e:
    CacheEntry)
    requires
        entry_committed(l0, la, e),
        untouched_at(la, lb, e.0),
    ensures
        entry_committed(l0, lb, e),
{
}

/// A pointwise ledger step that rewrites at most the account at `a0`, and
/// keeps every entry's address, leaves every other address untouched.
pub proof fn lemma_untouched_frame(la: Blockchain, lb: Blockchain, a0: Address)
    requires
        la.accounts@.len() == lb.accounts@.len(),
        addrs_unique(la.accounts@),
        addrs_unique(lb.accounts@),
        forall|j: int|
            0 <= j < la.accounts@.len() ==> (#[trigger] lb.accounts@[j]).1.address
                == la.accounts@[j].1.address,
        forall|j: int|
            0 <= j < la.accounts@.len() && la.accounts@[j].1.address != a0
                ==> #[trigger] lb.accounts@[j] == la.accounts@[j],
    ensures
        forall|a: Address| a != a0 ==> #[trigger] untouched_at(la, lb, a),
{
    assert forall|a: Address| a != a0 implies #[trigger] untouched_at(la, lb, a) by {
        if has_addr(la.accounts@, a) {
            crate::blockchain::lemma_addr_index(la.accounts@, a);
            let w = addr_index(la.accounts@, a);
            assert(lb.accounts@[w].1.address == a);
            assert(has_addr(lb.accounts@, a));
            crate::blockchain::lemma_addr_index(lb.accounts@, a);
            assert(addr_index(lb.accounts@, a) == w);
            assert(la.accounts@[w].1.address != a0);
            assert(lb.accounts@[w] == la.accounts@[w]);
        }
        if has_addr(lb.accounts@, a) {
            crate::blockchain::lemma_addr_index(lb.accounts@, a);
            let w = addr_index(lb.accounts@, a);
            assert(la.accounts@[w].1.address == a);
            assert(has_addr(la.accounts@, a));
        }
    }
}

/// A ledger step that appends one account at a fresh address `a0` leaves
/// every other address untouched.
pub proof fn lemma_untouched_push(la: Blockchain, lb: Blockchain, a0: Address)
    requires
        lb.accounts@.len() == la.accounts@.len() + 1,
        addrs_unique(la.accounts@),
        addrs_unique(lb.accounts@),
        forall|j: int|
            0 <= j < la.accounts@.len() ==> #[trigger] lb.accounts@[j] == la.accounts@[j],
        lb.accounts@.last().1.address == a0,
        !has_addr(la.accounts@, a0),
    ensures
        forall|a: Address| a != a0 ==> #[trigger] untouched_at(la, lb, a),
        has_addr(lb.accounts@, a0),
        account_of(lb.accounts@, a0) == lb.accounts@.last().1,
{
    let n = la.accounts@.len() as int;
    assert(lb.accounts@[n].1.address == a0);
    assert(has_addr(lb.accounts@, a0));
    crate::blockchain::lemma_addr_index(lb.accounts@, a0);
    assert(addr_index(lb.accounts@, a0) == n);
    assert forall|a: Address| a != a0 implies #[trigger] untouched_at(la, lb, a) by {
        if has_addr(la.accounts@, a) {
            crate::blockchain::lemma_addr_index(la.accounts@, a);
            let w = addr_index(la.accounts@, a);
            assert(lb.accounts@[w].1.address == a);
            assert(has_addr(lb.accounts@, a));
            crate::blockchain::lemma_addr_index(lb.accounts@, a);
            assert(addr_index(lb.accounts@, a) == w);
        }
        if has_addr(lb.accounts@, a) {
            crate::blockchain::lemma_addr_index(lb.accounts@, a);
            let w = addr_index(lb.accounts@, a);
            assert(w != n);
            assert(la.accounts@[w].1.address == a);
            assert(has_addr(la.accounts@, a));
        }
    }
}

/// Some slot in the first `j` staged slots is dirty and holds the key.
pub open spec fn in_dirty_prefix(cs: Seq<CachedSlot>, j: int, k: Word256) -> bool {
    exists|t: int| 0 <= t < j && (#[trigger] cs[t]).0 == k && cs[t].2
}

} // verus!
