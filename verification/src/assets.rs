//! The asset ledger: per-account balance buckets (free, and reserved for a
//! pending withdrawal), per-token total issuance, and the registry that maps
//! each token to its settlement chain and withdrawal fee.

use vstd::prelude::*;
use std::collections::HashMap;
use crate::types::{AccountId, AssetId, Balance, Chain};

verus! {

broadcast use vstd::std_specs::hash::group_hash_axioms;

/// What the registry records about one token.
#[derive(Clone, Copy, PartialEq, Eq, Structural, Debug)]
pub struct Asset {
    pub chain: Chain,
    pub withdrawal_fee: Balance,
}

/// Key of a per-account, per-token balance bucket.
pub open spec fn spec_pack(who: AccountId, token: AssetId) -> u128 {
    ((who as int) * 0x1_0000_0000_0000_0000 + (token as int)) as u128
}

pub proof fn lemma_pack_injective(w1: AccountId, t1: AssetId, w2: AccountId, t2: AssetId)
    ensures
        spec_pack(w1, t1) == spec_pack(w2, t2) ==> (w1 == w2 && t1 == t2),
{
    assert(
        0 <= (w1 as int) * 0x1_0000_0000_0000_0000 + (t1 as int)
            < 0x1_0000_0000_0000_0000_0000_0000_0000_0000
            && 0 <= (w2 as int) * 0x1_0000_0000_0000_0000 + (t2 as int)
            < 0x1_0000_0000_0000_0000_0000_0000_0000_0000
    ) by (nonlinear_arith);
    assert(
        (w1 as int) * 0x1_0000_0000_0000_0000 + (t1 as int)
            == (w2 as int) * 0x1_0000_0000_0000_0000 + (t2 as int)
            ==> (w1 == w2 && t1 == t2)
    ) by (nonlinear_arith);
}

fn pack(who: AccountId, token: AssetId) -> (k: u128)
    ensures
        k == spec_pack(who, token),
{
    (who as u128) * 0x1_0000_0000_0000_0000u128 + (token as u128)
}


/// Balance buckets and the token registry. A missing entry stands for a
/// zero balance; destroying a reserved amount burns it from the token's
/// total issuance.
pub struct XAssets {
    assets: HashMap<AssetId, Asset>,
    free: HashMap<u128, Balance>,
    reserved: HashMap<u128, Balance>,
    total: HashMap<AssetId, Balance>,
}

impl XAssets {
    /// The registry entry of a token, if it is registered.
    pub closed spec fn spec_asset(self, token: AssetId) -> Option<Asset> {
        if self.assets@.contains_key(token) {
            Some(self.assets@[token])
        } else {
            None
        }
    }

    /// The free balance of an account in a token.
    pub closed spec fn spec_free(self, who: AccountId, token: AssetId) -> Balance {
        if self.free@.contains_key(spec_pack(who, token)) {
            self.free@[spec_pack(who, token)]
        } else {
            0
        }
    }

    /// The balance of an account reserved for pending withdrawals of a token.
    pub closed spec fn spec_reserved(self, who: AccountId, token: AssetId) -> Balance {
        if self.reserved@.contains_key(spec_pack(who, token)) {
            self.reserved@[spec_pack(who, token)]
        } else {
            0
        }
    }

    /// The total issuance of a token.
    pub closed spec fn spec_total(self, token: AssetId) -> Balance {
        if self.total@.contains_key(token) {
            self.total@[token]
        } else {
            0
        }
    }

    /// All balance buckets of both kinds, and every total, are as in `other`.
    pub open spec fn balances_eq(self, other: XAssets) -> bool {
        &&& forall|w: AccountId, t: AssetId|
            #[trigger] self.spec_free(w, t) == other.spec_free(w, t)
        &&& forall|w: AccountId, t: AssetId|
            #[trigger] self.spec_reserved(w, t) == other.spec_reserved(w, t)
        &&& forall|t: AssetId| #[trigger] self.spec_total(t) == other.spec_total(t)
    }

    /// The registry is as in `other`.
    pub open spec fn assets_eq(self, other: XAssets) -> bool {
        forall|t: AssetId| #[trigger] self.spec_asset(t) == other.spec_asset(t)
    }

    /// Every registered fee leaves room for the three-halves
    /// minimal-withdrawal computation in a 64-bit balance.
    pub open spec fn wf(self) -> bool {
        forall|t: AssetId| (#[trigger] self.spec_asset(t)) is Some
            ==> self.spec_asset(t).unwrap().withdrawal_fee <= Balance::MAX / 3
    }

    pub fn new() -> (r: XAssets)
        ensures
            r.wf(),
            forall|w: AccountId, t: AssetId| #[trigger] r.spec_free(w, t) == 0,
            forall|w: AccountId, t: AssetId| #[trigger] r.spec_reserved(w, t) == 0,
            forall|t: AssetId| #[trigger] r.spec_total(t) == 0,
            forall|t: AssetId| #[trigger] r.spec_asset(t) is None,
    {
        XAssets {
            assets: HashMap::new(),
            free: HashMap::new(),
            reserved: HashMap::new(),
            total: HashMap::new(),
        }
    }

    /// Registers a token under a settlement chain with its withdrawal fee.
    /// Returns false, and changes nothing, if the token is already known.
    /// The fee bound keeps the minimal-withdrawal computation inside
    /// `Balance`.
    pub fn register_asset(&mut self, token: AssetId, chain: Chain, withdrawal_fee: Balance)
        -> (ok: bool)
        requires
            withdrawal_fee <= Balance::MAX / 3,
        ensures
            old(self).wf() ==> final(self).wf(),
            ok <==> old(self).spec_asset(token) is None,
            ok ==> final(self).spec_asset(token)
                == Some(Asset { chain, withdrawal_fee }),
            forall|t: AssetId| t != token ==>
                #[trigger] final(self).spec_asset(t) == old(self).spec_asset(t),
            !ok ==> final(self).assets_eq(*old(self)),
            final(self).balances_eq(*old(self)),
    {
        if self.assets.contains_key(&token) {
            return false;
        }
        self.assets.insert(token, Asset { chain, withdrawal_fee });
        proof {
            if old(self).wf() {
                assert forall|t: AssetId| (#[trigger] self.spec_asset(t)) is Some
                    implies self.spec_asset(t).unwrap().withdrawal_fee <= Balance::MAX / 3 by {
                    if t != token {
                        assert(self.spec_asset(t) == old(self).spec_asset(t));
                    }
                }
            }
        }
        true
    }

    pub fn get_asset(&self, token: AssetId) -> (r: Option<Asset>)
        ensures
            r == self.spec_asset(token),
    {
        match self.assets.get(&token) {
            Some(a) => Some(*a),
            None => None,
        }
    }

    pub fn free_balance(&self, who: AccountId, token: AssetId) -> (r: Balance)
        ensures
            r == self.spec_free(who, token),
    {
        match self.free.get(&pack(who, token)) {
            Some(v) => *v,
            None => 0,
        }
    }

    pub fn reserved_withdrawal_balance(&self, who: AccountId, token: AssetId) -> (r: Balance)
        ensures
            r == self.spec_reserved(who, token),
    {
        match self.reserved.get(&pack(who, token)) {
            Some(v) => *v,
            None => 0,
        }
    }

    pub fn total_issuance(&self, token: AssetId) -> (r: Balance)
        ensures
            r == self.spec_total(token),
    {
        match self.total.get(&token) {
            Some(v) => *v,
            None => 0,
        }
    }

    /// Creates `value` new units of `token` in `who`'s free bucket, growing
    /// the total issuance by the same amount. The bounds are machine limits:
    /// the balances are 64-bit counters.
    pub fn issue(&mut self, token: AssetId, who: AccountId, value: Balance)
        requires
            old(self).spec_asset(token) is Some,
            old(self).spec_free(who, token) + value <= Balance::MAX,
            old(self).spec_total(token) + value <= Balance::MAX,
        ensures
            final(self).spec_free(who, token)
                == old(self).spec_free(who, token) + value,
            final(self).spec_total(token) == old(self).spec_total(token) + value,
            forall|w: AccountId, t: AssetId| !(w == who && t == token) ==>
                #[trigger] final(self).spec_free(w, t) == old(self).spec_free(w, t),
            forall|w: AccountId, t: AssetId|
                #[trigger] final(self).spec_reserved(w, t) == old(self).spec_reserved(w, t),
            forall|t: AssetId| t != token ==>
                #[trigger] final(self).spec_total(t) == old(self).spec_total(t),
            final(self).assets_eq(*old(self)),
    {
        let k = pack(who, token);
        let f = self.free_balance(who, token);
        self.free.insert(k, f + value);
        let tot = self.total_issuance(token);
        self.total.insert(token, tot + value);
        proof {
            assert forall|w: AccountId, t: AssetId| !(w == who && t == token) implies
                #[trigger] final(self).spec_free(w, t) == old(self).spec_free(w, t) by {
                lemma_pack_injective(w, t, who, token);
            }
        }
    }

    /// Moves `value` of `who`'s balance in `token` from the free bucket to
    /// the reserved-for-withdrawal bucket.
    pub fn lock(&mut self, who: AccountId, token: AssetId, value: Balance)
        requires
            old(self).spec_free(who, token) >= value,
            old(self).spec_reserved(who, token) + value <= Balance::MAX,
        ensures
            lock_post(*old(self), *final(self), who, token, value),
    {
        let k = pack(who, token);
        let f = self.free_balance(who, token);
        self.free.insert(k, f - value);
        let r = self.reserved_withdrawal_balance(who, token);
        self.reserved.insert(k, r + value);
        proof {
            lemma_other_buckets(old(self).free@, self.free@, who, token);
            lemma_other_buckets(old(self).reserved@, self.reserved@, who, token);
        }
    }

    /// Moves `value` of `who`'s balance in `token` back from the
    /// reserved-for-withdrawal bucket to the free bucket.
    pub fn unlock(&mut self, who: AccountId, token: AssetId, value: Balance)
        requires
            old(self).spec_reserved(who, token) >= value,
            old(self).spec_free(who, token) + value <= Balance::MAX,
        ensures
            unlock_post(*old(self), *final(self), who, token, value),
    {
        let k = pack(who, token);
        let r = self.reserved_withdrawal_balance(who, token);
        self.reserved.insert(k, r - value);
        let f = self.free_balance(who, token);
        self.free.insert(k, f + value);
        proof {
            lemma_other_buckets(old(self).free@, self.free@, who, token);
            lemma_other_buckets(old(self).reserved@, self.reserved@, who, token);
        }
    }

    /// Permanently destroys `value` of `who`'s reserved-for-withdrawal
    /// balance in `token`, shrinking the total issuance by the same amount.
    pub fn destroy(&mut self, token: AssetId, who: AccountId, value: Balance)
        requires
            old(self).spec_reserved(who, token) >= value,
            old(self).spec_total(token) >= value,
        ensures
            destroy_post(*old(self), *final(self), who, token, value),
    {
        let k = pack(who, token);
        let r = self.reserved_withdrawal_balance(who, token);
        self.reserved.insert(k, r - value);
        let tot = self.total_issuance(token);
        self.total.insert(token, tot - value);
        proof {
            lemma_other_buckets(old(self).reserved@, self.reserved@, who, token);
        }
    }
}

/// Buckets of every other (account, token) pair read the same in a map
/// changed only at this pair's key.
proof fn lemma_other_buckets(
    m0: Map<u128, Balance>,
    m1: Map<u128, Balance>,
    who: AccountId,
    token: AssetId,
)
    requires
        forall|k: u128| #![trigger m1.contains_key(k)] #![trigger m0.contains_key(k)]
            k != spec_pack(who, token) ==> (
                m1.contains_key(k) == m0.contains_key(k)
                && (m0.contains_key(k) ==> m1[k] == m0[k])
            ),
    ensures
        forall|w: AccountId, t: AssetId| !(w == who && t == token) ==> {
            &&& m1.contains_key(spec_pack(w, t)) == m0.contains_key(spec_pack(w, t))
            &&& m0.contains_key(spec_pack(w, t)) ==>
                m1[spec_pack(w, t)] == m0[spec_pack(w, t)]
        },
{
    assert forall|w: AccountId, t: AssetId| !(w == who && t == token) implies {
        &&& m1.contains_key(spec_pack(w, t)) == m0.contains_key(spec_pack(w, t))
        &&& m0.contains_key(spec_pack(w, t)) ==>
            m1[spec_pack(w, t)] == m0[spec_pack(w, t)]
    } by {
        lemma_pack_injective(w, t, who, token);
        assert(spec_pack(w, t) != spec_pack(who, token));
        assert(m1.contains_key(spec_pack(w, t)) == m0.contains_key(spec_pack(w, t)));
    }
}

/// Funds effect of locking `value` for a withdrawal: free down, reserved up,
/// totals and everything else untouched.
pub open spec fn lock_post(
    a0: XAssets,
    a1: XAssets,
    who: AccountId,
    token: AssetId,
    value: Balance,
) -> bool {
    &&& a1.spec_free(who, token) == a0.spec_free(who, token) - value
    &&& a1.spec_reserved(who, token) == a0.spec_reserved(who, token) + value
    &&& forall|w: AccountId, t: AssetId| !(w == who && t == token) ==>
        #[trigger] a1.spec_free(w, t) == a0.spec_free(w, t)
    &&& forall|w: AccountId, t: AssetId| !(w == who && t == token) ==>
        #[trigger] a1.spec_reserved(w, t) == a0.spec_reserved(w, t)
    &&& forall|t: AssetId| #[trigger] a1.spec_total(t) == a0.spec_total(t)
    &&& a1.assets_eq(a0)
}

/// Funds effect of returning a locked `value`: the exact inverse of
/// `lock_post`.
pub open spec fn unlock_post(
    a0: XAssets,
    a1: XAssets,
    who: AccountId,
    token: AssetId,
    value: Balance,
) -> bool {
    &&& a1.spec_free(who, token) == a0.spec_free(who, token) + value
    &&& a1.spec_reserved(who, token) == a0.spec_reserved(who, token) - value
    &&& forall|w: AccountId, t: AssetId| !(w == who && t == token) ==>
        #[trigger] a1.spec_free(w, t) == a0.spec_free(w, t)
    &&& forall|w: AccountId, t: AssetId| !(w == who && t == token) ==>
        #[trigger] a1.spec_reserved(w, t) == a0.spec_reserved(w, t)
    &&& forall|t: AssetId| #[trigger] a1.spec_total(t) == a0.spec_total(t)
    &&& a1.assets_eq(a0)
}

/// Funds effect of burning a locked `value`: reserved and total issuance
/// both fall by exactly `value`; free balances are untouched.
pub open spec fn destroy_post(
    a0: XAssets,
    a1: XAssets,
    who: AccountId,
    token: AssetId,
    value: Balance,
) -> bool {
    &&& a1.spec_reserved(who, token) == a0.spec_reserved(who, token) - value
    &&& a1.spec_total(token) == a0.spec_total(token) - value
    &&& forall|w: AccountId, t: AssetId|
        #[trigger] a1.spec_free(w, t) == a0.spec_free(w, t)
    &&& forall|w: AccountId, t: AssetId| !(w == who && t == token) ==>
        #[trigger] a1.spec_reserved(w, t) == a0.spec_reserved(w, t)
    &&& forall|t: AssetId| t != token ==>
        #[trigger] a1.spec_total(t) == a0.spec_total(t)
    &&& a1.assets_eq(a0)
}

} // verus!
