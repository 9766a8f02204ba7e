//! The withdrawal ledger: pending withdrawal applications, kept per
//! settlement-chain partition as an intrusive doubly-linked list over a flat
//! id-keyed store, with the lock/unlock/destroy funds state machine.
//!
//! The mathematical model of a partition is the sequence of pending ids in
//! submission (FIFO) order; the list pointers, the head/tail pair and the
//! node store are all tied to that sequence by the well-formedness
//! invariant.

use vstd::prelude::*;
use vstd::pervasive::VecAdditionalExecFns;
use std::collections::HashMap;
use crate::types::{AccountId, AppView, Application, AssetId, Balance, Chain, CHAIN_COUNT,
    LedgerErr, Timestamp};
use crate::assets::{XAssets, destroy_post, lock_post, unlock_post};

verus! {

broadcast use vstd::std_specs::hash::group_hash_axioms;

/// One stored list node: the application, its partition, and the ids of its
/// list neighbours.
pub struct Node {
    pub data: Application,
    pub chain: Chain,
    pub prev: Option<u32>,
    pub next: Option<u32>,
}

/// Head and tail of one partition's list.
#[derive(Clone, Copy, PartialEq, Eq, Structural, Debug)]
pub struct PartPtrs {
    pub head: Option<u32>,
    pub tail: Option<u32>,
}

/// The serial number that follows `n`: one more, wrapping to zero at the
/// end of the 32-bit range.
pub open spec fn spec_wrap_inc(n: u32) -> u32 {
    if n == u32::MAX {
        0
    } else {
        (n + 1) as u32
    }
}

/// A token is withdrawable when it is registered under a foreign settlement
/// chain; the embedding chain's own assets never are.
pub open spec fn spec_withdrawable(a: XAssets, token: AssetId) -> bool {
    match a.spec_asset(token) {
        Some(asset) => asset.chain != Chain::ChainX,
        None => false,
    }
}

/// The settlement chain a withdrawable token settles on.
pub open spec fn spec_chain_of_token(a: XAssets, token: AssetId) -> Chain {
    a.spec_asset(token).unwrap().chain
}

/// The withdrawal ledger.
pub struct AssetRecords {
    nodes: HashMap<u32, Node>,
    parts: Vec<PartPtrs>,
    serial: u32,
    order: Ghost<Seq<Seq<u32>>>,
}

impl AssetRecords {
    /// The ids pending on a partition, oldest first.
    pub closed spec fn pending_ids(self, chain: Chain) -> Seq<u32> {
        self.order@[chain.spec_index_of()]
    }

    /// Whether an application with this serial number is pending.
    pub closed spec fn is_pending(self, id: u32) -> bool {
        self.nodes@.contains_key(id)
    }

    /// The pending application stored under `id`.
    pub closed spec fn app_of(self, id: u32) -> AppView {
        self.nodes@[id].data@
    }

    /// The partition of the pending application stored under `id`.
    pub closed spec fn chain_of(self, id: u32) -> Chain {
        self.nodes@[id].chain
    }

    /// The serial number the next submission will take.
    pub closed spec fn spec_number(self) -> u32 {
        self.serial
    }

    /// Well-formedness: the three partition sequences carry distinct ids;
    /// the node store holds exactly those ids; every node's neighbour
    /// pointers, partition tag and stored id agree with its place in its
    /// partition's sequence; and each head/tail pair names the sequence's
    /// endpoints.
    pub closed spec fn wf(self) -> bool {
        &&& self.order@.len() == CHAIN_COUNT as int
        &&& self.parts@.len() == CHAIN_COUNT as int
        &&& forall|p: int| 0 <= p < CHAIN_COUNT as int ==>
            (#[trigger] self.order@[p]).no_duplicates()
        &&& forall|p1: int, i1: int, p2: int, i2: int|
            #![trigger self.order@[p1][i1], self.order@[p2][i2]]
            0 <= p1 < CHAIN_COUNT as int && 0 <= i1 < self.order@[p1].len()
                && 0 <= p2 < CHAIN_COUNT as int && 0 <= i2 < self.order@[p2].len()
                && p1 != p2
            ==> self.order@[p1][i1] != self.order@[p2][i2]
        &&& forall|id: u32| #[trigger] self.nodes@.contains_key(id)
            ==> exists|p: int, i: int|
                #![trigger self.order@[p][i]]
                0 <= p < CHAIN_COUNT as int && 0 <= i < self.order@[p].len()
                    && self.order@[p][i] == id
        &&& forall|p: int, i: int|
            #![trigger self.order@[p][i]]
            0 <= p < CHAIN_COUNT as int && 0 <= i < self.order@[p].len() ==> {
                let id = self.order@[p][i];
                &&& self.nodes@.contains_key(id)
                &&& self.nodes@[id].chain.spec_index_of() == p
                &&& self.nodes@[id].data.id == id
                &&& self.nodes@[id].prev == if i == 0 {
                    Option::<u32>::None
                } else {
                    Some(self.order@[p][i - 1])
                }
                &&& self.nodes@[id].next == if i == self.order@[p].len() - 1 {
                    Option::<u32>::None
                } else {
                    Some(self.order@[p][i + 1])
                }
            }
        &&& forall|p: int| 0 <= p < CHAIN_COUNT as int ==> {
            &&& (#[trigger] self.parts@[p]).head == if self.order@[p].len() == 0 {
                Option::<u32>::None
            } else {
                Some(self.order@[p][0])
            }
            &&& self.parts@[p].tail == if self.order@[p].len() == 0 {
                Option::<u32>::None
            } else {
                Some(self.order@[p][self.order@[p].len() - 1])
            }
        }
    }

    /// Locates a pending id in its partition's sequence.
    proof fn locate(self, id: u32) -> (pi: (int, int))
        requires
            self.wf(),
            self.is_pending(id),
        ensures
            0 <= pi.0 < CHAIN_COUNT as int,
            0 <= pi.1 < self.order@[pi.0].len(),
            self.order@[pi.0][pi.1] == id,
            self.nodes@[id].chain.spec_index_of() == pi.0,
    {
        let (p, i) = choose|p: int, i: int|
            #![trigger self.order@[p][i]]
            0 <= p < CHAIN_COUNT as int && 0 <= i < self.order@[p].len()
                && self.order@[p][i] == id;
        (p, i)
    }

    pub fn new() -> (r: AssetRecords)
        ensures
            r.wf(),
            r.spec_number() == 0,
            forall|c: Chain| (#[trigger] r.pending_ids(c)).len() == 0,
            forall|id: u32| !(#[trigger] r.is_pending(id)),
    {
        AssetRecords::new_with_serial(0)
    }

    /// Opens an empty ledger whose next submission takes the given serial
    /// number, as a chain started from a prepared genesis state does.
    pub fn new_with_serial(serial: u32) -> (r: AssetRecords)
        ensures
            r.wf(),
            r.spec_number() == serial,
            forall|c: Chain| (#[trigger] r.pending_ids(c)).len() == 0,
            forall|id: u32| !(#[trigger] r.is_pending(id)),
    {
        let mut parts: Vec<PartPtrs> = Vec::new();
        parts.push(PartPtrs { head: None, tail: None });
        parts.push(PartPtrs { head: None, tail: None });
        parts.push(PartPtrs { head: None, tail: None });
        let ghost order: Seq<Seq<u32>> =
            seq![Seq::<u32>::empty(), Seq::<u32>::empty(), Seq::<u32>::empty()];
        let r = AssetRecords {
            nodes: HashMap::new(),
            parts,
            serial,
            order: Ghost(order),
        };
        proof {
            assert forall|c: Chain| (#[trigger] r.pending_ids(c)).len() == 0 by {
                assert(0 <= c.spec_index_of() < 3);
            }
        }
        r
    }

    /// The serial number the next submission will take.
    pub fn number(&self) -> (r: u32)
        ensures
            r == self.spec_number(),
    {
        self.serial
    }

    /// Whether an application with this serial number is pending.
    pub fn contains_application(&self, id: u32) -> (r: bool)
        ensures
            r == self.is_pending(id),
    {
        self.nodes.contains_key(&id)
    }

    /// The id at the head of a partition: the oldest pending application.
    pub fn application_mheader(&self, chain: Chain) -> (r: Option<u32>)
        requires
            self.wf(),
        ensures
            r == if self.pending_ids(chain).len() == 0 {
                Option::<u32>::None
            } else {
                Some(self.pending_ids(chain)[0])
            },
    {
        let p = chain.index_of();
        self.parts[p].head
    }

    /// The id at the tail of a partition: the newest pending application.
    pub fn application_mtail(&self, chain: Chain) -> (r: Option<u32>)
        requires
            self.wf(),
        ensures
            r == if self.pending_ids(chain).len() == 0 {
                Option::<u32>::None
            } else {
                Some(self.pending_ids(chain)[self.pending_ids(chain).len() - 1])
            },
    {
        let p = chain.index_of();
        self.parts[p].tail
    }
}

impl AssetRecords {
    /// Submits a withdrawal. Checks that the token settles on a foreign
    /// chain and that the applicant's free balance covers the amount, then
    /// appends the application at the tail of the token's partition and
    /// locks the amount. Returns the application's serial number.
    ///
    /// The serial-number precondition reflects the wrapping 32-bit counter:
    /// a submission must not reuse an id that is still pending.
    #[verifier::rlimit(50)]
    pub fn withdrawal(
        &mut self,
        assets: &mut XAssets,
        who: AccountId,
        token: AssetId,
        balance: Balance,
        addr: Vec<u8>,
        ext: Vec<u8>,
        now: Timestamp,
    ) -> (r: Result<u32, LedgerErr>)
        requires
            old(self).wf(),
            !old(self).is_pending(old(self).spec_number()),
            old(assets).spec_reserved(who, token) + balance <= Balance::MAX,
        ensures
            final(self).wf(),
            r is Err ==> *final(self) == *old(self) && *final(assets) == *old(assets),
            r == Err::<u32, LedgerErr>(LedgerErr::TokenNotWithdrawable)
                <==> !spec_withdrawable(*old(assets), token),
            r == Err::<u32, LedgerErr>(LedgerErr::InsufficientFreeBalance)
                <==> spec_withdrawable(*old(assets), token)
                    && old(assets).spec_free(who, token) < balance,
            r is Ok <==> spec_withdrawable(*old(assets), token)
                && old(assets).spec_free(who, token) >= balance,
            r is Ok ==> {
                &&& r == Ok::<u32, LedgerErr>(old(self).spec_number())
                &&& submit_records_post(
                    *old(self),
                    *final(self),
                    spec_chain_of_token(*old(assets), token),
                    old(self).spec_number(),
                    AppView {
                        id: old(self).spec_number(),
                        applicant: who,
                        token,
                        balance,
                        addr: addr@,
                        ext: ext@,
                        time: now,
                    },
                )
                &&& lock_post(*old(assets), *final(assets), who, token, balance)
            },
    {
        let asset = match assets.get_asset(token) {
            Some(a) => a,
            None => {
                return Err(LedgerErr::TokenNotWithdrawable);
            },
        };
        if asset.chain == Chain::ChainX {
            return Err(LedgerErr::TokenNotWithdrawable);
        }
        if assets.free_balance(who, token) < balance {
            return Err(LedgerErr::InsufficientFreeBalance);
        }
        let id = self.serial;
        let chain = asset.chain;
        let p = chain.index_of();
        assets.lock(who, token, balance);
        let appl = Application { id, applicant: who, token, balance, addr, ext, time: now };
        let ghost r0 = *self;
        let ghost pi = p as int;
        let ghost s_old = self.order@[pi];
        proof {
            // the fresh id stands in no partition's sequence
            assert forall|p2: int, i2: int|
                #![trigger r0.order@[p2][i2]]
                0 <= p2 < CHAIN_COUNT as int && 0 <= i2 < r0.order@[p2].len()
                implies r0.order@[p2][i2] != id by {
                assert(r0.nodes@.contains_key(r0.order@[p2][i2]));
            }
        }
        let tail_opt = self.parts[p].tail;
        let node = Node { data: appl, chain, prev: tail_opt, next: None };
        match tail_opt {
            Some(t) => {
                proof {
                    assert(r0.order@[pi][s_old.len() - 1] == t);
                    assert(r0.nodes@.contains_key(t));
                }
                let mut tn = self.nodes.remove(&t).unwrap();
                tn.next = Some(id);
                self.nodes.insert(t, tn);
            },
            None => {},
        }
        self.nodes.insert(id, node);
        let head_opt = self.parts[p].head;
        let new_head = match head_opt {
            Some(h) => Some(h),
            None => Some(id),
        };
        self.parts.set(p, PartPtrs { head: new_head, tail: Some(id) });
        self.serial = if id == u32::MAX {
            0
        } else {
            id + 1
        };
        proof {
            self.order@ = self.order@.update(pi, s_old.push(id));
            let r1 = *self;
            let s_new = s_old.push(id);
            assert(r1.order@[pi] == s_new);
            assert forall|p2: int| 0 <= p2 < CHAIN_COUNT as int && p2 != pi
                implies r1.order@[p2] == r0.order@[p2] by {}
            // domain: every id in the new store stands somewhere
            assert forall|x: u32| #[trigger] r1.nodes@.contains_key(x)
                implies exists|p2: int, i2: int|
                    #![trigger r1.order@[p2][i2]]
                    0 <= p2 < CHAIN_COUNT as int && 0 <= i2 < r1.order@[p2].len()
                        && r1.order@[p2][i2] == x by {
                if x == id {
                    assert(r1.order@[pi][s_old.len() as int] == x);
                } else {
                    assert(r0.nodes@.contains_key(x));
                    let (p2, i2) = r0.locate(x);
                    assert(r1.order@[p2][i2] == x);
                }
            }
            // linkage
            assert forall|p2: int, i2: int|
                #![trigger r1.order@[p2][i2]]
                0 <= p2 < CHAIN_COUNT as int && 0 <= i2 < r1.order@[p2].len()
                implies {
                    let x = r1.order@[p2][i2];
                    &&& r1.nodes@.contains_key(x)
                    &&& r1.nodes@[x].chain.spec_index_of() == p2
                    &&& r1.nodes@[x].data.id == x
                    &&& r1.nodes@[x].prev == if i2 == 0 {
                        Option::<u32>::None
                    } else {
                        Some(r1.order@[p2][i2 - 1])
                    }
                    &&& r1.nodes@[x].next == if i2 == r1.order@[p2].len() - 1 {
                        Option::<u32>::None
                    } else {
                        Some(r1.order@[p2][i2 + 1])
                    }
                } by {
                let x = r1.order@[p2][i2];
                if p2 == pi {
                    if i2 == s_old.len() as int {
                        assert(x == id);
                    } else if i2 == s_old.len() - 1 {
                        assert(x == s_old[i2]);
                        assert(x != id);
                    } else {
                        assert(x == s_old[i2]);
                        assert(x != id);
                        // distinct from the old tail, whose node was rewired
                        assert(s_old.no_duplicates());
                        assert(r0.nodes@[x].next == Some(s_old[i2 + 1]));
                    }
                } else {
                    assert(x == r0.order@[p2][i2]);
                    assert(x != id);
                    if s_old.len() > 0 {
                        // in another partition than the old tail
                        assert(x != s_old[s_old.len() - 1]);
                    }
                }
            }
            // head and tail pointers
            assert forall|p2: int| 0 <= p2 < CHAIN_COUNT as int
                implies {
                    &&& (#[trigger] r1.parts@[p2]).head == if r1.order@[p2].len() == 0 {
                        Option::<u32>::None
                    } else {
                        Some(r1.order@[p2][0])
                    }
                    &&& r1.parts@[p2].tail == if r1.order@[p2].len() == 0 {
                        Option::<u32>::None
                    } else {
                        Some(r1.order@[p2][r1.order@[p2].len() - 1])
                    }
                } by {
                if p2 == pi {
                    if s_old.len() > 0 {
                        assert(s_new[0] == s_old[0]);
                    }
                } else {
                    assert(r1.parts@[p2] == r0.parts@[p2]);
                }
            }
            // the post relation
            assert(r1.pending_ids(chain) == s_new);
            assert forall|c: Chain| c != chain
                implies #[trigger] r1.pending_ids(c) == r0.pending_ids(c) by {
                assert(c.spec_index_of() != pi);
            }
            assert(r1.app_of(id) == appl@);
            assert forall|x: u32| x != id
                implies #[trigger] r1.is_pending(x) == r0.is_pending(x) by {}
        }
        Ok(id)
    }
}

/// What the funds state machine needs of the asset ledger to release the
/// lock of a pending application: the reserved bucket still holds the
/// amount, and the receiving counter has room. A violation means the store
/// is corrupt (the lock is created at submission and released exactly once,
/// here), so it is excluded rather than tolerated.
pub open spec fn finish_funds_ok(
    r: AssetRecords,
    a: XAssets,
    id: u32,
    success: bool,
) -> bool {
    r.is_pending(id) ==> {
        let app = r.app_of(id);
        &&& a.spec_reserved(app.applicant, app.token) >= app.balance
        &&& (success ==> a.spec_total(app.token) >= app.balance)
        &&& (!success ==> a.spec_free(app.applicant, app.token) + app.balance
            <= Balance::MAX)
    }
}

/// After the unlink, every id listed in the new sequences carries exactly
/// the neighbour pointers, partition tag and stored id its new place asks
/// for.
#[verifier::rlimit(100)]
#[verifier::spinoff_prover]
proof fn lemma_unlink_linkage(
    r0: AssetRecords,
    r1: AssetRecords,
    id: u32,
    pi: int,
    i: int,
)
    requires
        r0.wf(),
        0 <= pi < CHAIN_COUNT as int,
        0 <= i < r0.order@[pi].len(),
        r0.order@[pi][i] == id,
        r1.order@ == r0.order@.update(pi, r0.order@[pi].remove(i)),
        !r1.nodes@.contains_key(id),
        forall|x: u32| x != id ==>
            #[trigger] r1.nodes@.contains_key(x) == r0.nodes@.contains_key(x),
        forall|x: u32|
            x != id && r0.nodes@.contains_key(x)
                && (i == 0 || x != r0.order@[pi][i - 1])
                && (i == r0.order@[pi].len() - 1 || x != r0.order@[pi][i + 1])
            ==> #[trigger] r1.nodes@[x] == r0.nodes@[x],
        i > 0 ==> ({
            let pr = r0.order@[pi][i - 1];
            &&& r1.nodes@[pr].data == r0.nodes@[pr].data
            &&& r1.nodes@[pr].chain == r0.nodes@[pr].chain
            &&& r1.nodes@[pr].prev == r0.nodes@[pr].prev
            &&& r1.nodes@[pr].next == if i == r0.order@[pi].len() - 1 {
                Option::<u32>::None
            } else {
                Some(r0.order@[pi][i + 1])
            }
        }),
        i < r0.order@[pi].len() - 1 ==> ({
            let nx = r0.order@[pi][i + 1];
            &&& r1.nodes@[nx].data == r0.nodes@[nx].data
            &&& r1.nodes@[nx].chain == r0.nodes@[nx].chain
            &&& r1.nodes@[nx].next == r0.nodes@[nx].next
            &&& r1.nodes@[nx].prev == if i == 0 {
                Option::<u32>::None
            } else {
                Some(r0.order@[pi][i - 1])
            }
        }),
    ensures
        forall|p2: int, m: int|
            #![trigger r1.order@[p2][m]]
            0 <= p2 < CHAIN_COUNT as int && 0 <= m < r1.order@[p2].len()
            ==> {
                let x = r1.order@[p2][m];
                &&& r1.nodes@.contains_key(x)
                &&& r1.nodes@[x].chain.spec_index_of() == p2
                &&& r1.nodes@[x].data.id == x
                &&& r1.nodes@[x].prev == if m == 0 {
                    Option::<u32>::None
                } else {
                    Some(r1.order@[p2][m - 1])
                }
                &&& r1.nodes@[x].next == if m == r1.order@[p2].len() - 1 {
                    Option::<u32>::None
                } else {
                    Some(r1.order@[p2][m + 1])
                }
            },
{
    let s_old = r0.order@[pi];
    let lo = s_old.len();
    let s_new = s_old.remove(i);
    s_old.remove_ensures(i);
    assert(r1.order@[pi] == s_new);
    assert forall|p2: int, i2: int|
        #![trigger r0.order@[p2][i2]]
        0 <= p2 < CHAIN_COUNT as int && 0 <= i2 < r0.order@[p2].len()
        implies r0.nodes@.contains_key(r0.order@[p2][i2])
            && (p2 != pi ==> r0.order@[p2][i2] != id) by {}
    // linkage
    assert forall|p2: int, m: int|
        #![trigger r1.order@[p2][m]]
        0 <= p2 < CHAIN_COUNT as int && 0 <= m < r1.order@[p2].len()
        implies {
            let x = r1.order@[p2][m];
            &&& r1.nodes@.contains_key(x)
            &&& r1.nodes@[x].chain.spec_index_of() == p2
            &&& r1.nodes@[x].data.id == x
            &&& r1.nodes@[x].prev == if m == 0 {
                Option::<u32>::None
            } else {
                Some(r1.order@[p2][m - 1])
            }
            &&& r1.nodes@[x].next == if m == r1.order@[p2].len() - 1 {
                Option::<u32>::None
            } else {
                Some(r1.order@[p2][m + 1])
            }
        } by {
        let x = r1.order@[p2][m];
        if p2 == pi {
            assert(s_old.no_duplicates());
            if m < i {
                assert(x == s_old[m]);
                if m > 0 {
                    assert(s_new[m - 1] == s_old[m - 1]);
                }
                if m == i - 1 {
                    // the rewired predecessor
                    if m < s_new.len() - 1 {
                        assert(s_new[m + 1] == s_old[i + 1]);
                    }
                } else {
                    assert(x != id && (i >= 1 ==> x != s_old[i - 1])
                        && (i + 1 < lo ==> x != s_old[i + 1]));
                    if m < s_new.len() - 1 {
                        assert(s_new[m + 1] == s_old[m + 1]);
                    }
                }
            } else {
                assert(x == s_old[m + 1]);
                if m == i {
                    // the rewired successor
                    if m > 0 {
                        assert(s_new[m - 1] == s_old[i - 1]);
                    }
                    if m < s_new.len() - 1 {
                        assert(s_new[m + 1] == s_old[m + 2]);
                    }
                } else {
                    assert(m > i);
                    assert(x != id && (i >= 1 ==> x != s_old[i - 1])
                        && (i + 1 < lo ==> x != s_old[i + 1]));
                    assert(s_new[m - 1] == s_old[m]);
                    if m < s_new.len() - 1 {
                        assert(s_new[m + 1] == s_old[m + 2]);
                    }
                }
            }
        } else {
            assert(x == r0.order@[p2][m]);
            assert(x != id);
            assert(i >= 1 ==> x != s_old[i - 1]);
            assert(i + 1 < lo ==> x != s_old[i + 1]);
            assert(r1.nodes@[x] == r0.nodes@[x]);
        }
    }
}

/// Well-formedness survives unlinking the id at position `i` of partition
/// `pi`, given that the node store lost exactly that id, that the id's two
/// neighbours were rewired to each other, and that the partition's
/// endpoints follow the shortened sequence.
#[verifier::rlimit(100)]
#[verifier::spinoff_prover]
proof fn lemma_wf_after_unlink(
    r0: AssetRecords,
    r1: AssetRecords,
    id: u32,
    pi: int,
    i: int,
)
    requires
        r0.wf(),
        0 <= pi < CHAIN_COUNT as int,
        0 <= i < r0.order@[pi].len(),
        r0.order@[pi][i] == id,
        r1.order@ == r0.order@.update(pi, r0.order@[pi].remove(i)),
        r1.parts@.len() == CHAIN_COUNT as int,
        !r1.nodes@.contains_key(id),
        forall|x: u32| x != id ==>
            #[trigger] r1.nodes@.contains_key(x) == r0.nodes@.contains_key(x),
        forall|x: u32|
            x != id && r0.nodes@.contains_key(x)
                && (i == 0 || x != r0.order@[pi][i - 1])
                && (i == r0.order@[pi].len() - 1 || x != r0.order@[pi][i + 1])
            ==> #[trigger] r1.nodes@[x] == r0.nodes@[x],
        i > 0 ==> ({
            let pr = r0.order@[pi][i - 1];
            &&& r1.nodes@[pr].data == r0.nodes@[pr].data
            &&& r1.nodes@[pr].chain == r0.nodes@[pr].chain
            &&& r1.nodes@[pr].prev == r0.nodes@[pr].prev
            &&& r1.nodes@[pr].next == if i == r0.order@[pi].len() - 1 {
                Option::<u32>::None
            } else {
                Some(r0.order@[pi][i + 1])
            }
        }),
        i < r0.order@[pi].len() - 1 ==> ({
            let nx = r0.order@[pi][i + 1];
            &&& r1.nodes@[nx].data == r0.nodes@[nx].data
            &&& r1.nodes@[nx].chain == r0.nodes@[nx].chain
            &&& r1.nodes@[nx].next == r0.nodes@[nx].next
            &&& r1.nodes@[nx].prev == if i == 0 {
                Option::<u32>::None
            } else {
                Some(r0.order@[pi][i - 1])
            }
        }),
        forall|p2: int| 0 <= p2 < CHAIN_COUNT as int && p2 != pi ==>
            #[trigger] r1.parts@[p2] == r0.parts@[p2],
        r1.parts@[pi].head == (if r0.order@[pi].remove(i).len() == 0 {
            Option::<u32>::None
        } else {
            Some(r0.order@[pi].remove(i)[0])
        }),
        r1.parts@[pi].tail == (if r0.order@[pi].remove(i).len() == 0 {
            Option::<u32>::None
        } else {
            Some(r0.order@[pi].remove(i)[r0.order@[pi].remove(i).len() - 1])
        }),
    ensures
        r1.wf(),
{
    let s_old = r0.order@[pi];
    let lo = s_old.len();
    let s_new = s_old.remove(i);
    s_old.remove_ensures(i);
    assert(r1.order@[pi] == s_new);

    // every listed id of the old state is a key of the old store, and ids
    // of other partitions differ from this partition's
    assert forall|p2: int, i2: int|
        #![trigger r0.order@[p2][i2]]
        0 <= p2 < CHAIN_COUNT as int && 0 <= i2 < r0.order@[p2].len()
        implies r0.nodes@.contains_key(r0.order@[p2][i2])
            && (p2 != pi ==> r0.order@[p2][i2] != id) by {}

    // the shortened sequence still has no duplicates
    assert forall|m1: int, m2: int|
        0 <= m1 < s_new.len() && 0 <= m2 < s_new.len() && m1 != m2
        implies s_new[m1] != s_new[m2] by {
        let o1 = if m1 < i { m1 } else { m1 + 1 };
        let o2 = if m2 < i { m2 } else { m2 + 1 };
        assert(s_new[m1] == s_old[o1] && s_new[m2] == s_old[o2]);
        assert(s_old.no_duplicates());
    }
    assert(s_new.no_duplicates());

    // partitions stay mutually disjoint
    assert forall|p1: int, i1: int, p2: int, i2: int|
        #![trigger r1.order@[p1][i1], r1.order@[p2][i2]]
        0 <= p1 < CHAIN_COUNT as int && 0 <= i1 < r1.order@[p1].len()
            && 0 <= p2 < CHAIN_COUNT as int && 0 <= i2 < r1.order@[p2].len()
            && p1 != p2
        implies r1.order@[p1][i1] != r1.order@[p2][i2] by {
        let o1 = if p1 == pi && i1 >= i { i1 + 1 } else { i1 };
        let o2 = if p2 == pi && i2 >= i { i2 + 1 } else { i2 };
        assert(r1.order@[p1][i1] == r0.order@[p1][o1]);
        assert(r1.order@[p2][i2] == r0.order@[p2][o2]);
    }

    // domain: every key of the new store is listed somewhere
    assert forall|x: u32| #[trigger] r1.nodes@.contains_key(x)
        implies exists|p2: int, i2: int|
            #![trigger r1.order@[p2][i2]]
            0 <= p2 < CHAIN_COUNT as int && 0 <= i2 < r1.order@[p2].len()
                && r1.order@[p2][i2] == x by {
        assert(r0.nodes@.contains_key(x));
        let (p2, i2) = r0.locate(x);
        if p2 != pi {
            assert(r1.order@[p2][i2] == x);
        } else if i2 < i {
            assert(r1.order@[pi][i2] == x);
        } else {
            assert(i2 > i);
            assert(r1.order@[pi][i2 - 1] == x);
        }
    }

    // linkage
    lemma_unlink_linkage(r0, r1, id, pi, i);

    // head and tail pointers
    assert forall|p2: int| 0 <= p2 < CHAIN_COUNT as int
        implies {
            &&& (#[trigger] r1.parts@[p2]).head == if r1.order@[p2].len() == 0 {
                Option::<u32>::None
            } else {
                Some(r1.order@[p2][0])
            }
            &&& r1.parts@[p2].tail == if r1.order@[p2].len() == 0 {
                Option::<u32>::None
            } else {
                Some(r1.order@[p2][r1.order@[p2].len() - 1])
            }
        } by {
        if p2 != pi {
            assert(r1.parts@[p2] == r0.parts@[p2]);
            assert(r1.order@[p2] == r0.order@[p2]);
        }
    }
}

impl AssetRecords {
    /// Finishes the pending application `serial_number`: unlinks and removes
    /// it, then destroys the locked amount (`success`) or returns it to the
    /// applicant's free balance (`!success`). This is the exactly-once
    /// release point of the funds lock taken at submission.
    #[verifier::rlimit(100)]
    pub fn withdrawal_finish(
        &mut self,
        assets: &mut XAssets,
        serial_number: u32,
        success: bool,
    ) -> (r: Result<(), LedgerErr>)
        requires
            old(self).wf(),
            finish_funds_ok(*old(self), *old(assets), serial_number, success),
        ensures
            final(self).wf(),
            r is Err ==> *final(self) == *old(self) && *final(assets) == *old(assets),
            r == Err::<(), LedgerErr>(LedgerErr::ApplicationNotFound)
                <==> !old(self).is_pending(serial_number),
            r is Ok <==> old(self).is_pending(serial_number),
            r is Ok ==> {
                let app = old(self).app_of(serial_number);
                &&& finish_records_post(*old(self), *final(self), serial_number)
                &&& (success ==> destroy_post(*old(assets), *final(assets),
                    app.applicant, app.token, app.balance))
                &&& (!success ==> unlock_post(*old(assets), *final(assets),
                    app.applicant, app.token, app.balance))
            },
    {
        if !self.nodes.contains_key(&serial_number) {
            return Err(LedgerErr::ApplicationNotFound);
        }
        let node = self.nodes.remove(&serial_number).unwrap();
        let ghost r0 = *old(self);
        let ghost (pi, i) = r0.locate(serial_number);
        let ghost s_old = r0.order@[pi];
        let ghost lo = s_old.len();
        let p = node.chain.index_of();
        proof {
            assert(p as int == pi);
            assert(node == r0.nodes@[serial_number]);
            s_old.remove_ensures(i);
            // every listed id is a key of the old store, and ids of other
            // partitions differ from those of this one
            assert forall|p2: int, i2: int|
                #![trigger r0.order@[p2][i2]]
                0 <= p2 < CHAIN_COUNT as int && 0 <= i2 < r0.order@[p2].len()
                implies r0.nodes@.contains_key(r0.order@[p2][i2])
                    && (p2 != pi ==> r0.order@[p2][i2] != serial_number) by {}
        }
        match (node.prev, node.next) {
            (None, None) => {
                proof {
                    assert(i == 0 && i == lo - 1);
                }
                self.parts.set(p, PartPtrs { head: None, tail: None });
            },
            (Some(pr), None) => {
                proof {
                    assert(i == lo - 1 && i > 0 && pr == s_old[i - 1]);
                    assert(r0.nodes@.contains_key(pr));
                }
                let mut pn = self.nodes.remove(&pr).unwrap();
                pn.next = None;
                self.nodes.insert(pr, pn);
                let h = self.parts[p].head;
                self.parts.set(p, PartPtrs { head: h, tail: Some(pr) });
            },
            (None, Some(nx)) => {
                proof {
                    assert(i == 0 && i < lo - 1 && nx == s_old[i + 1]);
                    assert(r0.nodes@.contains_key(nx));
                }
                let mut nn = self.nodes.remove(&nx).unwrap();
                nn.prev = None;
                self.nodes.insert(nx, nn);
                let t = self.parts[p].tail;
                self.parts.set(p, PartPtrs { head: Some(nx), tail: t });
            },
            (Some(pr), Some(nx)) => {
                proof {
                    assert(0 < i < lo - 1 && pr == s_old[i - 1] && nx == s_old[i + 1]);
                    assert(r0.nodes@.contains_key(pr) && r0.nodes@.contains_key(nx));
                    assert(pr != nx && pr != serial_number && nx != serial_number);
                }
                let mut pn = self.nodes.remove(&pr).unwrap();
                pn.next = Some(nx);
                self.nodes.insert(pr, pn);
                let mut nn = self.nodes.remove(&nx).unwrap();
                nn.prev = Some(pr);
                self.nodes.insert(nx, nn);
            },
        }
        if success {
            assets.destroy(node.data.token, node.data.applicant, node.data.balance);
        } else {
            assets.unlock(node.data.applicant, node.data.token, node.data.balance);
        }
        proof {
            let s_new = s_old.remove(i);
            self.order@ = self.order@.update(pi, s_new);
            let r1 = *self;
            assert(r1.order@[pi] == s_new);
            s_old.remove_ensures(i);

            // premises of the unlink lemma: the store lost exactly the
            // finished id, the two neighbours were rewired to each other,
            // and the endpoints follow the shortened sequence
            assert(!r1.nodes@.contains_key(serial_number));
            assert forall|x: u32| x != serial_number
                implies #[trigger] r1.nodes@.contains_key(x)
                    == r0.nodes@.contains_key(x) by {}
            assert forall|x: u32|
                x != serial_number && r0.nodes@.contains_key(x)
                    && (i == 0 || x != s_old[i - 1])
                    && (i == lo - 1 || x != s_old[i + 1])
                implies #[trigger] r1.nodes@[x] == r0.nodes@[x] by {}
            if i > 0 {
                let pr = s_old[i - 1];
                assert(r1.nodes@[pr].data == r0.nodes@[pr].data
                    && r1.nodes@[pr].chain == r0.nodes@[pr].chain
                    && r1.nodes@[pr].prev == r0.nodes@[pr].prev
                    && r1.nodes@[pr].next == (if i == lo - 1 {
                        Option::<u32>::None
                    } else {
                        Some(s_old[i + 1])
                    }));
            }
            if i < lo - 1 {
                let nx = s_old[i + 1];
                assert(r1.nodes@[nx].data == r0.nodes@[nx].data
                    && r1.nodes@[nx].chain == r0.nodes@[nx].chain
                    && r1.nodes@[nx].next == r0.nodes@[nx].next
                    && r1.nodes@[nx].prev == (if i == 0 {
                        Option::<u32>::None
                    } else {
                        Some(s_old[i - 1])
                    }));
            }
            assert forall|p2: int| 0 <= p2 < CHAIN_COUNT as int && p2 != pi
                implies #[trigger] r1.parts@[p2] == r0.parts@[p2] by {}
            assert(r0.parts@[pi].head == Some(s_old[0]));
            assert(r0.parts@[pi].tail == Some(s_old[lo - 1]));
            assert(r1.parts@[pi].head == (if s_new.len() == 0 {
                Option::<u32>::None
            } else {
                Some(s_new[0])
            })) by {
                if s_new.len() > 0 {
                    if i > 0 {
                        assert(s_new[0] == s_old[0]);
                    } else {
                        assert(s_new[0] == s_old[1]);
                    }
                }
            }
            assert(r1.parts@[pi].tail == (if s_new.len() == 0 {
                Option::<u32>::None
            } else {
                Some(s_new[s_new.len() - 1])
            })) by {
                if s_new.len() > 0 {
                    if i < lo - 1 {
                        assert(s_new[s_new.len() - 1] == s_old[lo - 1]);
                    } else {
                        assert(s_new[s_new.len() - 1] == s_old[lo - 2]);
                    }
                }
            }
            lemma_wf_after_unlink(r0, r1, serial_number, pi, i);

            // the removal index is the one index_of picks
            let j = s_old.index_of(serial_number);
            assert(s_old.contains(serial_number)) by {
                assert(s_old[i] == serial_number);
            }
            assert(0 <= j < s_old.len() && s_old[j] == serial_number);
            assert(j == i) by {
                assert(s_old.no_duplicates());
            }
            assert(r0.chain_of(serial_number).spec_index_of() == pi);
            assert forall|c: Chain| c != r0.chain_of(serial_number)
                implies #[trigger] r1.pending_ids(c) == r0.pending_ids(c) by {
                assert(c.spec_index_of() != pi);
            }
            // data of the other pending applications is untouched
            assert forall|x: u32| x != serial_number && r0.is_pending(x)
                implies #[trigger] r1.app_of(x) == r0.app_of(x)
                    && r1.chain_of(x) == r0.chain_of(x) by {}
        }
        Ok(())
    }
}

impl AssetRecords {
    /// Revokes a pending withdrawal on behalf of its applicant: finishes it
    /// without success, so the locked amount returns to the free balance.
    /// An id that is not pending, or that belongs to another applicant,
    /// reads as not found.
    pub fn withdrawal_revoke(
        &mut self,
        assets: &mut XAssets,
        from: AccountId,
        id: u32,
    ) -> (r: Result<(), LedgerErr>)
        requires
            old(self).wf(),
            finish_funds_ok(*old(self), *old(assets), id, false),
        ensures
            final(self).wf(),
            r is Err ==> *final(self) == *old(self) && *final(assets) == *old(assets),
            r == Err::<(), LedgerErr>(LedgerErr::ApplicationNotFound)
                <==> !(old(self).is_pending(id) && old(self).app_of(id).applicant == from),
            r is Ok <==> old(self).is_pending(id)
                && old(self).app_of(id).applicant == from,
            r is Ok ==> {
                let app = old(self).app_of(id);
                &&& finish_records_post(*old(self), *final(self), id)
                &&& unlock_post(*old(assets), *final(assets),
                    app.applicant, app.token, app.balance)
            },
    {
        let authorized = match self.nodes.get(&id) {
            Some(n) => n.data.applicant == from,
            None => false,
        };
        if !authorized {
            return Err(LedgerErr::ApplicationNotFound);
        }
        self.withdrawal_finish(assets, id, false)
    }

    /// The serial numbers pending on a partition, oldest first, cut off
    /// after `max_count` entries.
    pub fn withdrawal_application_numbers(&self, chain: Chain, max_count: u32) -> (r: Vec<u32>)
        requires
            self.wf(),
        ensures
            r@.len() == if max_count as int <= self.pending_ids(chain).len() {
                max_count as int
            } else {
                self.pending_ids(chain).len() as int
            },
            r@ == self.pending_ids(chain).take(r@.len() as int),
    {
        let p = chain.index_of();
        let ghost s = self.pending_ids(chain);
        let mut out: Vec<u32> = Vec::new();
        let mut cur: Option<u32> = self.parts[p].head;
        while out.len() < max_count as usize && cur.is_some()
            invariant
                self.wf(),
                p == chain.spec_index_of(),
                p < CHAIN_COUNT,
                s == self.order@[p as int],
                out@.len() <= s.len(),
                out@.len() <= max_count as int,
                out@ == s.take(out@.len() as int),
                cur == if out@.len() < s.len() {
                    Some(s[out@.len() as int])
                } else {
                    Option::<u32>::None
                },
            decreases s.len() - out@.len(),
        {
            let id = cur.unwrap();
            proof {
                assert(self.order@[p as int][out@.len() as int] == id);
                assert(self.nodes@.contains_key(id));
            }
            let node = self.nodes.get(&id).unwrap();
            out.push(id);
            cur = node.next;
            proof {
                assert(out@ == s.take(out@.len() as int)) by {
                    assert(out@ =~= s.take(out@.len() as int));
                }
            }
        }
        out
    }

    /// All applications pending on a partition, oldest first.
    pub fn withdrawal_applications(&self, chain: Chain) -> (r: Vec<Application>)
        requires
            self.wf(),
        ensures
            r@.len() == self.pending_ids(chain).len(),
            forall|m: int| 0 <= m < r@.len() ==>
                (#[trigger] r@[m])@ == self.app_of(self.pending_ids(chain)[m]),
    {
        let p = chain.index_of();
        let ghost s = self.pending_ids(chain);
        let mut out: Vec<Application> = Vec::new();
        let mut cur: Option<u32> = self.parts[p].head;
        while cur.is_some()
            invariant
                self.wf(),
                p == chain.spec_index_of(),
                p < CHAIN_COUNT,
                s == self.order@[p as int],
                out@.len() <= s.len(),
                forall|m: int| 0 <= m < out@.len() ==>
                    (#[trigger] out@[m])@ == self.app_of(s[m]),
                cur == if out@.len() < s.len() {
                    Some(s[out@.len() as int])
                } else {
                    Option::<u32>::None
                },
            decreases s.len() - out@.len(),
        {
            let id = cur.unwrap();
            proof {
                assert(self.order@[p as int][out@.len() as int] == id);
                assert(self.nodes@.contains_key(id));
            }
            let node = self.nodes.get(&id).unwrap();
            out.push(node.data.clone());
            cur = node.next;
        }
        out
    }
}

/// Credits a deposit: issues `balance` new units of `token` to `who`'s free
/// balance. The embedding chain's own asset cannot cross the bridge. The
/// balance bounds are machine limits of the 64-bit counters.
pub fn deposit(
    assets: &mut XAssets,
    who: AccountId,
    token: AssetId,
    balance: Balance,
) -> (r: Result<(), LedgerErr>)
    requires
        old(assets).spec_free(who, token) + balance <= Balance::MAX,
        old(assets).spec_total(token) + balance <= Balance::MAX,
    ensures
        r is Err ==> *final(assets) == *old(assets),
        r == Err::<(), LedgerErr>(LedgerErr::TokenNotWithdrawable)
            <==> !spec_withdrawable(*old(assets), token),
        r is Ok <==> spec_withdrawable(*old(assets), token),
        r is Ok ==> {
            &&& final(assets).spec_free(who, token)
                == old(assets).spec_free(who, token) + balance
            &&& final(assets).spec_total(token)
                == old(assets).spec_total(token) + balance
            &&& forall|w: AccountId, t: AssetId| !(w == who && t == token) ==>
                #[trigger] final(assets).spec_free(w, t) == old(assets).spec_free(w, t)
            &&& forall|w: AccountId, t: AssetId|
                #[trigger] final(assets).spec_reserved(w, t)
                    == old(assets).spec_reserved(w, t)
            &&& forall|t: AssetId| t != token ==>
                #[trigger] final(assets).spec_total(t) == old(assets).spec_total(t)
            &&& final(assets).assets_eq(*old(assets))
        },
{
    let asset = match assets.get_asset(token) {
        Some(a) => a,
        None => {
            return Err(LedgerErr::TokenNotWithdrawable);
        },
    };
    if asset.chain == Chain::ChainX {
        return Err(LedgerErr::TokenNotWithdrawable);
    }
    assets.issue(token, who, balance);
    Ok(())
}

/// Ledger effect of a successful submission: `id` is appended at the tail
/// of its token's partition carrying exactly the submitted application;
/// nothing else moves, and the serial counter steps once (wrapping).
pub open spec fn submit_records_post(
    r0: AssetRecords,
    r1: AssetRecords,
    chain: Chain,
    id: u32,
    app: AppView,
) -> bool {
    &&& id == r0.spec_number()
    &&& r1.pending_ids(chain) == r0.pending_ids(chain).push(id)
    &&& forall|c: Chain| c != chain ==> #[trigger] r1.pending_ids(c) == r0.pending_ids(c)
    &&& r1.is_pending(id)
    &&& r1.app_of(id) == app
    &&& r1.chain_of(id) == chain
    &&& forall|x: u32| x != id ==> #[trigger] r1.is_pending(x) == r0.is_pending(x)
    &&& forall|x: u32| x != id && r0.is_pending(x) ==> {
        &&& #[trigger] r1.app_of(x) == r0.app_of(x)
        &&& r1.chain_of(x) == r0.chain_of(x)
    }
    &&& r1.spec_number() == spec_wrap_inc(r0.spec_number())
}

/// Ledger effect of finishing the pending application `id`: it leaves its
/// partition's sequence at its own place; nothing else moves.
pub open spec fn finish_records_post(r0: AssetRecords, r1: AssetRecords, id: u32) -> bool {
    &&& r0.is_pending(id)
    &&& !r1.is_pending(id)
    &&& r1.pending_ids(r0.chain_of(id)) == r0.pending_ids(r0.chain_of(id)).remove(
        r0.pending_ids(r0.chain_of(id)).index_of(id),
    )
    &&& r0.pending_ids(r0.chain_of(id)).index_of(id) >= 0
    &&& forall|c: Chain| c != r0.chain_of(id) ==>
        #[trigger] r1.pending_ids(c) == r0.pending_ids(c)
    &&& forall|x: u32| x != id ==> #[trigger] r1.is_pending(x) == r0.is_pending(x)
    &&& forall|x: u32| x != id && r0.is_pending(x) ==> {
        &&& #[trigger] r1.app_of(x) == r0.app_of(x)
        &&& r1.chain_of(x) == r0.chain_of(x)
    }
    &&& r1.spec_number() == r0.spec_number()
}

/// Facts of the well-formedness invariant that callers compose proofs
/// with: every id listed on a partition's pending sequence is pending and
/// tagged with that partition, and every pending application is stored
/// under its own serial number.
pub proof fn lemma_wf_pending_facts(r: AssetRecords)
    requires
        r.wf(),
    ensures
        forall|c: Chain, j: int|
            #![trigger r.pending_ids(c)[j]]
            0 <= j < r.pending_ids(c).len() ==> {
                &&& r.is_pending(r.pending_ids(c)[j])
                &&& r.chain_of(r.pending_ids(c)[j]) == c
            },
        forall|id: u32| #[trigger] r.is_pending(id) ==> r.app_of(id).id == id,
{
    assert forall|c: Chain, j: int|
        #![trigger r.pending_ids(c)[j]]
        0 <= j < r.pending_ids(c).len()
        implies {
            &&& r.is_pending(r.pending_ids(c)[j])
            &&& r.chain_of(r.pending_ids(c)[j]) == c
        } by {
        let p = c.spec_index_of();
        assert(0 <= p < CHAIN_COUNT as int);
        let id = r.order@[p][j];
        assert(r.nodes@.contains_key(id));
        assert(r.nodes@[id].chain.spec_index_of() == p);
        // partition indices name their chains uniquely
        assert(r.nodes@[id].chain == c);
    }
    assert forall|id: u32| #[trigger] r.is_pending(id)
        implies r.app_of(id).id == id by {
        let (p, i) = r.locate(id);
        assert(r.nodes@[id].data.id == id);
    }
}

} // verus!
