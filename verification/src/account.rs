//! Durable account records: one address's balance, nonce, code and storage.
//! Storage is a key-to-value association held as a vector with pairwise
//! distinct keys; an absent key denotes the logical zero value.

use crate::words::{Address, Word256};
use vstd::prelude::*;

verus! {

/// The keys of a slot association are pairwise distinct.
pub open spec fn slots_unique(s: Seq<(Word256, Word256)>) -> bool {
    forall|i: int, j: int| 0 <= i < j < s.len() ==> s[i].0 != s[j].0
}

/// Some slot holds the key.
pub open spec fn has_slot(s: Seq<(Word256, Word256)>, k: Word256) -> bool {
    exists|i: int| 0 <= i < s.len() && s[i].0 == k
}

/// The index of the slot holding the key.
pub open spec fn slot_index(s: Seq<(Word256, Word256)>, k: Word256) -> int {
    choose|i: int| 0 <= i < s.len() && s[i].0 == k
}

/// The value stored under the key.
pub open spec fn slot_value(s: Seq<(Word256, Word256)>, k: Word256) -> Word256 {
    s[slot_index(s, k)].1
}

/// With distinct keys, the slot holding a key is the only one that does.
pub proof fn lemma_slot_index(s: Seq<(Word256, Word256)>, k: Word256)
    requires
        slots_unique(s),
        has_slot(s, k),
    ensures
        0 <= slot_index(s, k) < s.len(),
        s[slot_index(s, k)].0 == k,
        forall|i: int| 0 <= i < s.len() && s[i].0 == k ==> i == slot_index(s, k),
{
    let w = slot_index(s, k);
    assert(0 <= w < s.len() && s[w].0 == k);
    assert forall|i: int| 0 <= i < s.len() && s[i].0 == k implies i == w by {
        if i != w {
            if i < w {
                assert(s[i].0 != s[w].0);
            } else {
                assert(s[w].0 != s[i].0);
            }
        }
    }
}

/// One address's durable record.
#[derive(Debug)]
pub struct Account {
    pub address: Address,
    pub nonce: Word256,
    pub balance: Word256,
    pub code: Vec<u8>,
    pub storage: Vec<(Word256, Word256)>,
}

impl Account {
    /// Internal consistency: storage keys are pairwise distinct.
    pub open spec fn wf(self) -> bool {
        slots_unique(self.storage@)
    }

    /// A fresh account with the given identity, funds and code, and no
    /// storage written yet.
    pub fn new(addr: Address, bal: Word256, nonce: Word256, code: Vec<u8>) -> (r: Account)
        ensures
            r.address == addr,
            r.balance == bal,
            r.nonce == nonce,
            r.code == code,
            r.storage@ == Seq::<(Word256, Word256)>::empty(),
            r.wf(),
    {
        Account { address: addr, nonce, balance: bal, code, storage: Vec::new() }
    }

    /// The value stored under `key`, if any slot was ever written for it.
    pub fn storage_get(&self, key: &Word256) -> (r: Option<Word256>)
        requires
            self.wf(),
        ensures
            match r {
                Some(v) => has_slot(self.storage@, *key) && v == slot_value(self.storage@, *key),
                None => !has_slot(self.storage@, *key),
            },
    {
        let mut i: usize = 0;
        while i < self.storage.len()
            invariant
                i <= self.storage@.len(),
                self.wf(),
                forall|j: int| 0 <= j < i ==> self.storage@[j].0 != *key,
            decreases self.storage@.len() - i,
        {
            if self.storage[i].0 == *key {
                proof {
                    lemma_slot_index(self.storage@, *key);
                }
                return Some(self.storage[i].1);
            }
            i = i + 1;
        }
        None
    }

    /// Writes `value` under `key`, replacing the slot if one exists and
    /// adding one otherwise. Nothing else about the account changes.
    pub fn storage_set(&mut self, key: &Word256, value: &Word256)
        requires
            old(self).wf(),
        ensures
            final(self).wf(),
            final(self).address == old(self).address,
            final(self).nonce == old(self).nonce,
            final(self).balance == old(self).balance,
            final(self).code == old(self).code,
            has_slot(final(self).storage@, *key),
            slot_value(final(self).storage@, *key) == *value,
            forall|k2: Word256|
                k2 != *key ==> (has_slot(final(self).storage@, k2) == has_slot(
                    old(self).storage@,
                    k2,
                ) && (has_slot(old(self).storage@, k2) ==> slot_value(final(self).storage@, k2)
                    == slot_value(old(self).storage@, k2))),
    {
        let ghost s0 = self.storage@;
        let mut i: usize = 0;
        while i < self.storage.len()
            invariant
                i <= self.storage@.len(),
                self.storage@ == s0,
                s0 == old(self).storage@,
                self.address == old(self).address,
                self.nonce == old(self).nonce,
                self.balance == old(self).balance,
                self.code == old(self).code,
                slots_unique(s0),
                forall|j: int| 0 <= j < i ==> s0[j].0 != *key,
            decreases self.storage@.len() - i,
        {
            if self.storage[i].0 == *key {
                self.storage[i] = (*key, *value);
                proof {
                    let s1 = self.storage@;
                    assert(s1 == s0.update(i as int, (*key, *value)));
                    assert(slots_unique(s1));
                    assert(s1[i as int].0 == *key);
                    lemma_slot_index(s1, *key);
                    assert(slot_value(s1, *key) == *value);
                    assert forall|k2: Word256| k2 != *key implies (has_slot(s1, k2) == has_slot(
                        s0,
                        k2,
                    ) && (has_slot(s0, k2) ==> slot_value(s1, k2) == slot_value(s0, k2))) by {
                        if has_slot(s0, k2) {
                            lemma_slot_index(s0, k2);
                            let w = slot_index(s0, k2);
                            assert(w != i as int);
                            assert(s1[w].0 == k2 && s1[w].1 == s0[w].1);
                            assert(has_slot(s1, k2));
                            lemma_slot_index(s1, k2);
                            assert(slot_index(s1, k2) == w);
                            assert(slot_value(s1, k2) == s0[w].1);
                            assert(slot_value(s0, k2) == s0[w].1);
                        }
                        if has_slot(s1, k2) {
                            let w = slot_index(s1, k2);
                            assert(0 <= w < s1.len() && s1[w].0 == k2);
                            assert(w != i);
                            assert(s0[w].0 == k2);
                            assert(has_slot(s0, k2));
                        }
                    }
                }
                return ;
            }
            i = i + 1;
        }
        self.storage.push((*key, *value));
        proof {
            let s1 = self.storage@;
            assert(s1 == s0.push((*key, *value)));
            assert(s1[s0.len() as int].0 == *key);
            assert(forall|j: int| 0 <= j < s0.len() ==> s1[j] == s0[j]);
            assert(slots_unique(s1));
            assert(has_slot(s1, *key));
            lemma_slot_index(s1, *key);
            assert forall|k2: Word256| k2 != *key implies (has_slot(s1, k2) == has_slot(s0, k2) && (
            has_slot(s0, k2) ==> slot_value(s1, k2) == slot_value(s0, k2))) by {
                if has_slot(s0, k2) {
                    lemma_slot_index(s0, k2);
                    let w = slot_index(s0, k2);
                    assert(s1[w].0 == k2);
                    assert(has_slot(s1, k2));
                    lemma_slot_index(s1, k2);
                }
                if has_slot(s1, k2) {
                    let w = slot_index(s1, k2);
                    assert(0 <= w < s1.len() && s1[w].0 == k2);
                    assert(w != s0.len() as int);
                    assert(has_slot(s0, k2));
                }
            }
        }
    }
}

} // verus!
