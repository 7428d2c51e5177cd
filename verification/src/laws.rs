//! The library's standing laws, each proved from the contracts the modules
//! state: chain integrity, the lazy-default policy, flush idempotence, and
//! the isolation of overlays from one another.

use crate::account::{has_slot, slot_value};
use crate::blockchain::{account_of, has_addr, Blockchain};
use crate::state::{
    cached, committed_upto, dirty_cslot, entry_committed, entry_fails, observed_balance,
    observed_nonce, observed_slot, provider_balance, provider_nonce, untouched_at, CacheEntry,
    State,
};
use crate::words::{Address, Word256};
use vstd::prelude::*;

verus! {

/// Chain integrity: in a well-formed ledger every block's stored
/// predecessor hash is the hash of the block before it, all the way back
/// to genesis, whose predecessor is the all-zero hash. (That altering a
/// block's bytes also alters its digest input is
/// `crate::block::lemma_block_encoding_injective`; that the digest itself
/// then differs is the collision resistance of the hash, which is assumed
/// of the outside digest, not proved.)
pub proof fn lemma_chain_integrity(l: Blockchain)
    requires
        l.wf(),
    ensures
        l.blocks@.len() >= 1,
        l.blocks@[0].prev@ == 0,
        forall|i: int|
            1 <= i < l.blocks@.len() ==> (#[trigger] l.blocks@[i]).prev == l.blocks@[i
                - 1].hash_spec(),
{
}

/// Lazy default: an address never seen by the ledger and never touched by
/// the overlay is observed with zero balance and zero nonce — a read, not
/// an error.
pub proof fn lemma_lazy_default(c: Seq<CacheEntry>, l: Blockchain, a: Address)
    requires
        !cached(c, a),
        !has_addr(l.accounts@, a),
    ensures
        observed_balance(c, l, a)@ == 0,
        observed_nonce(c, l, a)@ == 0,
{
}

/// A clean entry commits nothing: after a flush, the ledger holds for that
/// entry's address exactly what it held before — the same existence, the
/// same balance, nonce and code, and the same value under every storage
/// key. In particular a cache entry that a read created (clean by
/// construction) never causes a write.
pub proof fn lemma_clean_entry_commits_nothing(l0: Blockchain, l1: Blockchain, e: CacheEntry)
    requires
        State::entry_clean(e),
        entry_committed(l0, l1, e),
    ensures
        has_addr(l1.accounts@, e.0) == has_addr(l0.accounts@, e.0),
        has_addr(l0.accounts@, e.0) ==> {
            &&& account_of(l1.accounts@, e.0).balance == account_of(l0.accounts@, e.0).balance
            &&& account_of(l1.accounts@, e.0).nonce == account_of(l0.accounts@, e.0).nonce
            &&& account_of(l1.accounts@, e.0).code == account_of(l0.accounts@, e.0).code
            &&& forall|k: Word256|
                #![trigger has_slot(account_of(l1.accounts@, e.0).storage@, k)]
                has_slot(account_of(l1.accounts@, e.0).storage@, k) == has_slot(
                    account_of(l0.accounts@, e.0).storage@,
                    k,
                ) && (has_slot(account_of(l0.accounts@, e.0).storage@, k) ==> slot_value(
                    account_of(l1.accounts@, e.0).storage@,
                    k,
                ) == slot_value(account_of(l0.accounts@, e.0).storage@, k))
        },
{
    assert forall|k: Word256| !dirty_cslot(e.1.storage@, k) by {
        if dirty_cslot(e.1.storage@, k) {
            let w = crate::state::cslot_index(e.1.storage@, k);
            assert(0 <= w < e.1.storage@.len() && e.1.storage@[w].0 == k);
            assert(!e.1.storage@[w].2);
        }
    }
}

/// Flush idempotence: a flush of a clean overlay (in particular, a second
/// flush right after a successful one, with no intervening writes) leaves
/// the ledger observationally unchanged at every address — existence,
/// balance, nonce, code and every storage value — and succeeds.
pub proof fn lemma_commit_on_clean_is_noop(l0: Blockchain, l1: Blockchain, o: State)
    requires
        o.clean(),
        committed_upto(l0, l1, o.accounts@, o.accounts@.len() as int),
    ensures
        forall|m: int|
            0 <= m < o.accounts@.len() ==> !entry_fails(l0, #[trigger] o.accounts@[m]),
        forall|a: Address|
            #![trigger has_addr(l1.accounts@, a)]
            has_addr(l1.accounts@, a) == has_addr(l0.accounts@, a),
        forall|a: Address|
            #![trigger account_of(l1.accounts@, a)]
            has_addr(l0.accounts@, a) ==> {
                &&& account_of(l1.accounts@, a).balance == account_of(l0.accounts@, a).balance
                &&& account_of(l1.accounts@, a).nonce == account_of(l0.accounts@, a).nonce
                &&& account_of(l1.accounts@, a).code == account_of(l0.accounts@, a).code
                &&& forall|k: Word256|
                    #![trigger has_slot(account_of(l1.accounts@, a).storage@, k)]
                    has_slot(account_of(l1.accounts@, a).storage@, k) == has_slot(
                        account_of(l0.accounts@, a).storage@,
                        k,
                    ) && (has_slot(account_of(l0.accounts@, a).storage@, k) ==> slot_value(
                        account_of(l1.accounts@, a).storage@,
                        k,
                    ) == slot_value(account_of(l0.accounts@, a).storage@, k))
            },
{
    let c = o.accounts@;
    assert forall|m: int| 0 <= m < c.len() implies !entry_fails(l0, #[trigger] c[m]) by {
        assert(State::entry_clean(c[m]));
        if entry_fails(l0, c[m]) {
            let w = choose|w: int| 0 <= w < c[m].1.storage@.len() && (#[trigger] c[m].1.storage@[
            w]).2;
            assert(!c[m].1.storage@[w].2);
        }
    }
    assert forall|a: Address| has_addr(l1.accounts@, a) == has_addr(l0.accounts@, a) && (has_addr(
        l0.accounts@,
        a,
    ) ==> {
        &&& account_of(l1.accounts@, a).balance == account_of(l0.accounts@, a).balance
        &&& account_of(l1.accounts@, a).nonce == account_of(l0.accounts@, a).nonce
        &&& account_of(l1.accounts@, a).code == account_of(l0.accounts@, a).code
        &&& forall|k: Word256|
            #![trigger has_slot(account_of(l1.accounts@, a).storage@, k)]
            has_slot(account_of(l1.accounts@, a).storage@, k) == has_slot(
                account_of(l0.accounts@, a).storage@,
                k,
            ) && (has_slot(account_of(l0.accounts@, a).storage@, k) ==> slot_value(
                account_of(l1.accounts@, a).storage@,
                k,
            ) == slot_value(account_of(l0.accounts@, a).storage@, k))
    }) by {
        if cached(c, a) {
            let m = choose|m: int| 0 <= m < c.len() && (#[trigger] c[m]).0 == a;
            assert(entry_committed(l0, l1, c[m]));
            assert(State::entry_clean(c[m]));
            lemma_clean_entry_commits_nothing(l0, l1, c[m]);
        } else {
            assert forall|m: int| 0 <= m < c.len() implies (#[trigger] c[m]).0 != a by {
                if c[m].0 == a {
                    assert(cached(c, a));
                }
            }
            assert(untouched_at(l0, l1, a));
        }
    }
}

/// Isolation between overlays: two overlays over the same ledger, neither
/// having touched an address, both observe the ledger's value there — and
/// what one overlay stages locally (its own cache entries) cannot move the
/// other's observation, since an observation depends only on the observer's
/// own cache and the shared ledger, and staging never writes the ledger.
pub proof fn lemma_overlay_isolation(
    c1: Seq<CacheEntry>,
    c2: Seq<CacheEntry>,
    l: Blockchain,
    a: Address,
)
    requires
        !cached(c2, a),
    ensures
        observed_balance(c2, l, a) == provider_balance(l, a),
        observed_nonce(c2, l, a) == provider_nonce(l, a),
        !cached(c1, a) ==> observed_balance(c1, l, a) == observed_balance(c2, l, a),
        forall|k: Word256| observed_slot(c2, l, a, k) == crate::state::provider_slot(l, a, k),
{
}

} // verus!
