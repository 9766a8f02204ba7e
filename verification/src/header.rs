//! The header-chain tracker: a light client over a foreign chain's block
//! headers. It validates candidates against their parent and the current
//! best tip, maintains a rolling confirmation window of depth `K` (a header
//! becomes irreversible once `K - 1` descendants stand on it), and prunes
//! history outside a reserved window of trailing heights.
//!
//! A foreign header is reduced to what the tracker reads of it: its own
//! hash and its parent's. Proof-of-work checking and fork choice are the
//! callers' collaborators; settlement of a confirmed header's transactions
//! is handed back to the caller as the list of transaction ids to process.

use vstd::prelude::*;
use std::collections::HashMap;
use crate::types::{ChainErr, HashId};

verus! {

broadcast use vstd::std_specs::hash::group_hash_axioms;

/// A foreign block header, reduced to its identity and parentage.
#[derive(Clone, Copy, PartialEq, Eq, Structural, Debug)]
pub struct BlockHeader {
    pub hash: HashId,
    pub previous_header_hash: HashId,
}

/// A stored header record: the header, its height, whether it has entered
/// the irreversible region, and the ids of the settlement transactions
/// recorded in it.
pub struct BlockHeaderInfo {
    pub header: BlockHeader,
    pub height: u64,
    pub confirmed: bool,
    pub txid_list: Vec<HashId>,
}

/// Mathematical image of a stored header record.
pub struct HeaderView {
    pub hash: HashId,
    pub prev: HashId,
    pub height: u64,
    pub confirmed: bool,
    pub txids: Seq<HashId>,
}

impl View for BlockHeaderInfo {
    type V = HeaderView;

    open spec fn view(&self) -> HeaderView {
        HeaderView {
            hash: self.header.hash,
            prev: self.header.previous_header_hash,
            height: self.height,
            confirmed: self.confirmed,
            txids: self.txid_list@,
        }
    }
}

impl Clone for BlockHeaderInfo {
    fn clone(&self) -> (r: Self)
        ensures
            r@ == self@,
            r.header == self.header,
    {
        BlockHeaderInfo {
            header: self.header,
            height: self.height,
            confirmed: self.confirmed,
            txid_list: self.txid_list.clone(),
        }
    }
}

/// Mathematical image of the whole store.
#[verifier::ext_equal]
pub struct StoreView {
    /// Header records by header hash.
    pub headers: Map<HashId, HeaderView>,
    /// Hashes recorded at each height.
    pub index: Map<u64, Seq<HashId>>,
    /// The current best tip, advanced by the fork-choice collaborator.
    pub best: HashId,
    /// The externally fixed starting header.
    pub genesis: HashId,
    pub genesis_height: u64,
    /// Confirmation depth `K`.
    pub k: u32,
    /// Number of trailing heights kept before pruning.
    pub reserved: u32,
}

/// Key-value persistence of the tracker: header records by hash, a height
/// index for pruning, the best-tip pointer and the two tunable constants.
pub struct HeaderStore {
    headers: HashMap<HashId, BlockHeaderInfo>,
    index: HashMap<u64, Vec<HashId>>,
    best: HashId,
    genesis_hash: HashId,
    genesis_height: u64,
    confirmations: u32,
    reserved: u32,
}

impl View for HeaderStore {
    type V = StoreView;

    closed spec fn view(&self) -> StoreView {
        StoreView {
            headers: Map::new(
                |h: HashId| self.headers@.contains_key(h),
                |h: HashId| self.headers@[h]@,
            ),
            index: Map::new(
                |ht: u64| self.index@.contains_key(ht),
                |ht: u64| self.index@[ht]@,
            ),
            best: self.best,
            genesis: self.genesis_hash,
            genesis_height: self.genesis_height,
            k: self.confirmations,
            reserved: self.reserved,
        }
    }
}

impl HeaderStore {
    /// Well-formedness: the confirmation depth is at least one, the
    /// reserved window covers it, and the height index lists exactly the
    /// stored headers of each height (so pruning by height is complete and
    /// touches nothing younger).
    pub open spec fn wf(self) -> bool {
        &&& self@.k >= 1
        &&& self@.reserved >= self@.k
        &&& forall|h: HashId| #[trigger] self@.headers.contains_key(h) ==> {
            &&& self@.headers[h].hash == h
            &&& self@.index.contains_key(self@.headers[h].height)
            &&& self@.index[self@.headers[h].height].contains(h)
        }
        &&& forall|ht: u64, j: int|
            #![trigger self@.index[ht][j]]
            self@.index.contains_key(ht) && 0 <= j < self@.index[ht].len() ==> {
                &&& self@.headers.contains_key(self@.index[ht][j])
                &&& self@.headers[self@.index[ht][j]].height == ht
            }
        &&& forall|ht: u64| #[trigger] self@.index.contains_key(ht)
            ==> self@.index[ht].no_duplicates()
    }

    /// Opens a store that knows the externally fixed genesis header at its
    /// externally fixed height, with the two configured constants.
    pub fn new(
        genesis: BlockHeader,
        genesis_height: u64,
        confirmation_number: u32,
        reserved_block: u32,
    ) -> (r: HeaderStore)
        requires
            confirmation_number >= 1,
            reserved_block >= confirmation_number,
        ensures
            r.wf(),
            r@.k == confirmation_number,
            r@.reserved == reserved_block,
            r@.genesis == genesis.hash,
            r@.genesis_height == genesis_height,
            r@.best == genesis.hash,
            r@.headers == Map::<HashId, HeaderView>::empty().insert(
                genesis.hash,
                HeaderView {
                    hash: genesis.hash,
                    prev: genesis.previous_header_hash,
                    height: genesis_height,
                    confirmed: false,
                    txids: Seq::<HashId>::empty(),
                },
            ),
            r@.index == Map::<u64, Seq<HashId>>::empty().insert(
                genesis_height,
                seq![genesis.hash],
            ),
    {
        let mut headers: HashMap<HashId, BlockHeaderInfo> = HashMap::new();
        headers.insert(
            genesis.hash,
            BlockHeaderInfo { header: genesis, height: genesis_height, confirmed: false,
                txid_list: Vec::new() },
        );
        let mut index: HashMap<u64, Vec<HashId>> = HashMap::new();
        let mut at_genesis: Vec<HashId> = Vec::new();
        at_genesis.push(genesis.hash);
        index.insert(genesis_height, at_genesis);
        let r = HeaderStore {
            headers,
            index,
            best: genesis.hash,
            genesis_hash: genesis.hash,
            genesis_height,
            confirmations: confirmation_number,
            reserved: reserved_block,
        };
        proof {
            assert(r@.headers =~= Map::<HashId, HeaderView>::empty().insert(
                genesis.hash,
                HeaderView {
                    hash: genesis.hash,
                    prev: genesis.previous_header_hash,
                    height: genesis_height,
                    confirmed: false,
                    txids: Seq::<HashId>::empty(),
                },
            ));
            assert(r@.index =~= Map::<u64, Seq<HashId>>::empty().insert(
                genesis_height,
                seq![genesis.hash],
            ));
            assert forall|h: HashId| #[trigger] r@.headers.contains_key(h)
                implies {
                    &&& r@.headers[h].hash == h
                    &&& r@.index.contains_key(r@.headers[h].height)
                    &&& r@.index[r@.headers[h].height].contains(h)
                } by {
                assert(h == genesis.hash);
                assert(r@.index[genesis_height][0] == genesis.hash);
            }
            assert forall|ht: u64, j: int|
                #![trigger r@.index[ht][j]]
                r@.index.contains_key(ht) && 0 <= j < r@.index[ht].len()
                implies r@.headers.contains_key(r@.index[ht][j])
                    && r@.headers[r@.index[ht][j]].height == ht by {
                assert(ht == genesis_height && j == 0);
                assert(r@.index[ht][j] == genesis.hash);
            }
        }
        r
    }

    /// The stored record of a header hash.
    pub fn block_header_for(&self, hash: HashId) -> (r: Option<&BlockHeaderInfo>)
        ensures
            match r {
                Some(b) => self@.headers.contains_key(hash) && b@ == self@.headers[hash],
                None => !self@.headers.contains_key(hash),
            },
    {
        self.headers.get(&hash)
    }

    /// The hashes recorded at a height.
    pub fn block_hash_for(&self, height: u64) -> (r: Vec<HashId>)
        ensures
            r@ == if self@.index.contains_key(height) {
                self@.index[height]
            } else {
                Seq::<HashId>::empty()
            },
    {
        match self.index.get(&height) {
            Some(v) => v.clone(),
            None => Vec::new(),
        }
    }

    /// The hash of the current best tip.
    pub fn best_index(&self) -> (r: HashId)
        ensures
            r == self@.best,
    {
        self.best
    }

    /// Moves the best-tip pointer; the decision is the fork-choice
    /// collaborator's.
    pub fn update_best_index(&mut self, hash: HashId)
        ensures
            final(self)@ == (StoreView { best: hash, ..old(self)@ }),
            old(self).wf() ==> final(self).wf(),
    {
        self.best = hash;
    }

    /// The configured confirmation depth `K`.
    pub fn confirmation_number(&self) -> (r: u32)
        ensures
            r == self@.k,
    {
        self.confirmations
    }

    /// The configured reserved window.
    pub fn reserved_block(&self) -> (r: u32)
        ensures
            r == self@.reserved,
    {
        self.reserved
    }

    /// The genesis hash and height the store was opened with.
    pub fn genesis_info(&self) -> (r: (HashId, u64))
        ensures
            r == (self@.genesis, self@.genesis_height),
    {
        (self.genesis_hash, self.genesis_height)
    }

    /// Validates a candidate header against its parent and the best tip:
    /// the parent must be known (`UnknownParent`), the best tip's own
    /// record must be present (`NotFound`; its absence means store
    /// corruption), and the candidate must not rewrite history older than
    /// the confirmation window (`AncientFork`). On success returns the
    /// record to insert — at the parent's height plus one, unconfirmed,
    /// with no settled transactions. Pure validation: the store is not
    /// touched. The height precondition is a machine limit of the 64-bit
    /// height counter.
    pub fn check_prev_and_convert(&self, header: BlockHeader)
        -> (r: Result<BlockHeaderInfo, ChainErr>)
        requires
            self.wf(),
            self@.headers.contains_key(header.previous_header_hash)
                ==> self@.headers[header.previous_header_hash].height < u64::MAX,
        ensures
            r == Err::<BlockHeaderInfo, ChainErr>(ChainErr::UnknownParent)
                <==> !self@.headers.contains_key(header.previous_header_hash),
            r == Err::<BlockHeaderInfo, ChainErr>(ChainErr::NotFound)
                <==> self@.headers.contains_key(header.previous_header_hash)
                    && !self@.headers.contains_key(self@.best),
            r == Err::<BlockHeaderInfo, ChainErr>(ChainErr::AncientFork)
                <==> spec_validation_inputs_ok(self@, header) && spec_ancient(self@, header),
            r is Ok <==> spec_validation_inputs_ok(self@, header) && !spec_ancient(self@, header),
            r is Ok ==> r.unwrap()@ == (HeaderView {
                hash: header.hash,
                prev: header.previous_header_hash,
                height: (self@.headers[header.previous_header_hash].height + 1) as u64,
                confirmed: false,
                txids: Seq::<HashId>::empty(),
            }),
    {
        let prev_info = match self.headers.get(&header.previous_header_hash) {
            Some(p) => p,
            None => {
                return Err(ChainErr::UnknownParent);
            },
        };
        let prev_height = prev_info.height;
        let best_info = match self.headers.get(&self.best) {
            Some(b) => b,
            None => {
                return Err(ChainErr::NotFound);
            },
        };
        let best_height = best_info.height;
        let confirmations = self.confirmations;
        let this_height = prev_height + 1;
        // `height <= best_height - (K - 1)`, carried out without wrapping
        if (this_height as u128) + ((confirmations - 1) as u128) <= best_height as u128 {
            return Err(ChainErr::AncientFork);
        }
        Ok(BlockHeaderInfo {
            header,
            height: this_height,
            confirmed: false,
            txid_list: Vec::new(),
        })
    }
}

/// How many parent-pointer steps the confirmation walk takes from the new
/// header's parent: `K - 2`, and none when `K` is one (the checkpoint is
/// then the parent itself).
pub open spec fn spec_steps(k: u32) -> nat {
    if k >= 2 {
        (k - 2) as nat
    } else {
        0
    }
}

/// Walking `n` parent pointers back from `start`, staying put from the
/// first hash that has no record.
pub open spec fn spec_walk(m: Map<HashId, HeaderView>, start: HashId, n: nat) -> HashId
    decreases n,
{
    if n == 0 {
        start
    } else if !m.contains_key(start) {
        start
    } else {
        spec_walk(m, m[start].prev, (n - 1) as nat)
    }
}

/// The hash that accepting `hdr` makes the confirmation checkpoint.
pub open spec fn spec_confirm_target(v: StoreView, hdr: HeaderView) -> HashId {
    spec_walk(v.headers, hdr.prev, spec_steps(v.k))
}

/// The height reported for the checkpoint: the new tip's height minus
/// `K - 1` (zero near the start of a fresh chain).
pub open spec fn spec_checkpoint_height(height: u64, k: u32) -> u64 {
    if height >= k - 1 {
        (height - (k - 1)) as u64
    } else {
        0
    }
}

/// State effect of the confirmation step: when the checkpoint has a record
/// that is not yet confirmed, that record — and only that record — flips to
/// confirmed.
pub open spec fn spec_confirm_state(v: StoreView, hdr: HeaderView) -> StoreView {
    let c = spec_confirm_target(v, hdr);
    if v.headers.contains_key(c) && !v.headers[c].confirmed {
        StoreView {
            headers: v.headers.insert(c, HeaderView { confirmed: true, ..v.headers[c] }),
            ..v
        }
    } else {
        v
    }
}

/// The settlement work the confirmation step hands back: the transaction
/// ids of the newly confirmed header; none when nothing newly confirms.
pub open spec fn spec_confirm_settled(v: StoreView, hdr: HeaderView) -> Seq<HashId> {
    let c = spec_confirm_target(v, hdr);
    if v.headers.contains_key(c) && !v.headers[c].confirmed {
        v.headers[c].txids
    } else {
        Seq::<HashId>::empty()
    }
}

/// The pair the confirmation step reports: the checkpoint and its height,
/// or the genesis pair when the walk fell off the stored chain.
pub open spec fn spec_confirm_report(v: StoreView, hdr: HeaderView) -> (HashId, u64) {
    let c = spec_confirm_target(v, hdr);
    if v.headers.contains_key(c) {
        (c, spec_checkpoint_height(hdr.height, v.k))
    } else {
        (v.genesis, v.genesis_height)
    }
}

/// The record the nearest-confirmed-ancestor search settles on: the first
/// confirmed record within `n` backward steps of `cur`, and the genesis
/// record when the walk leaves the stored chain or exhausts its steps
/// without meeting one.
pub open spec fn spec_find_from(
    m: Map<HashId, HeaderView>,
    genesis: HashId,
    cur: HashId,
    n: nat,
) -> HeaderView
    decreases n,
{
    if !m.contains_key(cur) {
        m[genesis]
    } else if m[cur].confirmed {
        m[cur]
    } else if n == 0 {
        m[genesis]
    } else {
        spec_find_from(m, genesis, m[cur].prev, (n - 1) as nat)
    }
}

impl HeaderStore {
    /// Follows `steps` parent pointers back from `start`, staying put from
    /// the first hash without a record.
    fn walk_back(&self, start: HashId, steps: u32) -> (r: HashId)
        ensures
            r == spec_walk(self@.headers, start, steps as nat),
        decreases steps,
    {
        if steps == 0 {
            start
        } else {
            match self.headers.get(&start) {
                Some(info) => self.walk_back(info.header.previous_header_hash, steps - 1),
                None => start,
            }
        }
    }

    /// Advances the rolling confirmation checkpoint after `header_info` was
    /// accepted: walks `K - 2` parent steps back from its parent. If the
    /// header there exists and is not yet confirmed, it is marked confirmed
    /// — each header transitions at most once — and its settled transaction
    /// ids come back for the settlement dispatcher. If the walk fell off
    /// the stored chain (a chain still shorter than the window), nothing is
    /// marked and the genesis pair is reported.
    pub fn update_confirmed_header(&mut self, header_info: &BlockHeaderInfo)
        -> (r: ((HashId, u64), Vec<HashId>))
        requires
            old(self).wf(),
        ensures
            final(self).wf(),
            final(self)@ == spec_confirm_state(old(self)@, header_info@),
            r.0 == spec_confirm_report(old(self)@, header_info@),
            r.1@ == spec_confirm_settled(old(self)@, header_info@),
    {
        let k = self.confirmations;
        let steps = if k >= 2 {
            k - 2
        } else {
            0
        };
        let c = self.walk_back(header_info.header.previous_header_hash, steps);
        proof {
            assert(c == spec_confirm_target(self@, header_info@));
        }
        if !self.headers.contains_key(&c) {
            let genesis_hash = self.genesis_hash;
            let genesis_height = self.genesis_height;
            proof {
                assert(self@ =~~= spec_confirm_state(old(self)@, header_info@));
            }
            return ((genesis_hash, genesis_height), Vec::new());
        }
        let kminus1 = (k - 1) as u64;
        let ch = if header_info.height >= kminus1 {
            header_info.height - kminus1
        } else {
            0
        };
        let mut rec = self.headers.remove(&c).unwrap();
        if rec.confirmed {
            self.headers.insert(c, rec);
            proof {
                assert(self@ =~~= old(self)@);
                assert(self@ =~~= spec_confirm_state(old(self)@, header_info@));
            }
            return ((c, ch), Vec::new());
        }
        let settled = rec.txid_list.clone();
        rec.confirmed = true;
        self.headers.insert(c, rec);
        proof {
            let v0 = old(self)@;
            assert(self@.headers =~= v0.headers.insert(
                c,
                HeaderView { confirmed: true, ..v0.headers[c] },
            ));
            assert(self@ =~~= spec_confirm_state(v0, header_info@));
            // well-formedness: only one record's flag changed; heights and
            // the index are untouched
            assert forall|h: HashId| #[trigger] self@.headers.contains_key(h)
                implies {
                    &&& self@.headers[h].hash == h
                    &&& self@.index.contains_key(self@.headers[h].height)
                    &&& self@.index[self@.headers[h].height].contains(h)
                } by {
                assert(v0.headers.contains_key(h));
                assert(self@.headers[h].height == v0.headers[h].height);
            }
            assert forall|ht: u64, j: int|
                #![trigger self@.index[ht][j]]
                self@.index.contains_key(ht) && 0 <= j < self@.index[ht].len()
                implies self@.headers.contains_key(self@.index[ht][j])
                    && self@.headers[self@.index[ht][j]].height == ht by {
                assert(v0.index[ht][j] == self@.index[ht][j]);
                assert(v0.headers.contains_key(v0.index[ht][j]));
            }
        }
        ((c, ch), settled)
    }

    /// The nearest confirmed header at or above `current`, looking back
    /// through at most `K - 1` ancestors; when the walk exhausts without
    /// meeting a confirmed record, or leaves the stored chain, it falls
    /// back to the genesis record. The genesis record must still be stored:
    /// a store pruned past its own genesis cannot answer the fallback.
    pub fn find_confirmed_block(&self, current: HashId) -> (r: BlockHeaderInfo)
        requires
            self.wf(),
            self@.headers.contains_key(self@.genesis),
        ensures
            r@ == spec_find_from(self@.headers, self@.genesis, current,
                (self@.k - 1) as nat),
    {
        let k = self.confirmations;
        self.find_confirmed_from(current, k - 1)
    }

    fn find_confirmed_from(&self, cur: HashId, steps: u32) -> (r: BlockHeaderInfo)
        requires
            self.wf(),
            self@.headers.contains_key(self@.genesis),
        ensures
            r@ == spec_find_from(self@.headers, self@.genesis, cur, steps as nat),
        decreases steps,
    {
        match self.headers.get(&cur) {
            None => {
                let g = self.headers.get(&self.genesis_hash).unwrap();
                g.clone()
            },
            Some(info) => {
                if info.confirmed {
                    info.clone()
                } else if steps == 0 {
                    let g = self.headers.get(&self.genesis_hash).unwrap();
                    g.clone()
                } else {
                    self.find_confirmed_from(info.header.previous_header_hash, steps - 1)
                }
            },
        }
    }
}

/// The transaction ids of the given headers, in order, read from `m`;
/// hashes without a record contribute nothing.
pub open spec fn spec_collect_txids(m: Map<HashId, HeaderView>, hs: Seq<HashId>) -> Seq<HashId>
    decreases hs.len(),
{
    if hs.len() == 0 {
        Seq::<HashId>::empty()
    } else {
        (if m.contains_key(hs[0]) {
            m[hs[0]].txids
        } else {
            Seq::<HashId>::empty()
        }) + spec_collect_txids(m, hs.drop_first())
    }
}

proof fn lemma_collect_txids_push(m: Map<HashId, HeaderView>, hs: Seq<HashId>, x: HashId)
    ensures
        spec_collect_txids(m, hs.push(x)) == spec_collect_txids(m, hs) + (
        if m.contains_key(x) {
            m[x].txids
        } else {
            Seq::<HashId>::empty()
        }),
    decreases hs.len(),
{
    let item = if m.contains_key(x) {
        m[x].txids
    } else {
        Seq::<HashId>::empty()
    };
    if hs.len() == 0 {
        assert(hs.push(x)[0] == x);
        assert(hs.push(x).drop_first() == Seq::<HashId>::empty());
        assert(spec_collect_txids(m, hs.push(x))
            == item + spec_collect_txids(m, Seq::<HashId>::empty()));
        assert(item + Seq::<HashId>::empty() =~= item);
        assert(spec_collect_txids(m, hs) + item =~= item);
    } else {
        let item0 = if m.contains_key(hs[0]) {
            m[hs[0]].txids
        } else {
            Seq::<HashId>::empty()
        };
        assert(hs.push(x)[0] == hs[0]);
        assert(hs.push(x).drop_first() == hs.drop_first().push(x));
        lemma_collect_txids_push(m, hs.drop_first(), x);
        assert(spec_collect_txids(m, hs.push(x))
            == item0 + (spec_collect_txids(m, hs.drop_first()) + item));
        assert(spec_collect_txids(m, hs) == item0 + spec_collect_txids(m, hs.drop_first()));
        assert((item0 + spec_collect_txids(m, hs.drop_first())) + item
            =~= item0 + (spec_collect_txids(m, hs.drop_first()) + item));
    }
}

/// The height pruning clears after a header at `height` is accepted.
pub open spec fn spec_del_height(height: u64, reserved: u32) -> u64 {
    (height - reserved) as u64
}

/// State effect of the pruning step: once the new header's height outgrows
/// the reserved window, every record at the height falling out of the
/// window disappears, along with that height's index entry.
pub open spec fn spec_prune_state(v: StoreView, hdr: HeaderView) -> StoreView {
    if hdr.height > v.reserved as u64 {
        let del = spec_del_height(hdr.height, v.reserved);
        StoreView {
            headers: Map::new(
                |h: HashId| v.headers.contains_key(h) && v.headers[h].height != del,
                |h: HashId| v.headers[h],
            ),
            index: v.index.remove(del),
            ..v
        }
    } else {
        v
    }
}

/// The transaction ids of the pruned headers, for the dispatcher to drop.
pub open spec fn spec_pruned_txids(v: StoreView, hdr: HeaderView) -> Seq<HashId> {
    if hdr.height > v.reserved as u64 {
        let del = spec_del_height(hdr.height, v.reserved);
        if v.index.contains_key(del) {
            spec_collect_txids(v.headers, v.index[del])
        } else {
            Seq::<HashId>::empty()
        }
    } else {
        Seq::<HashId>::empty()
    }
}

impl HeaderStore {
    /// Prunes history that fell out of the reserved window: once the newly
    /// accepted header's height exceeds the window, deletes every record at
    /// the height `window` below it and clears that height's index entry.
    /// Returns the transaction ids of the deleted headers, so the caller
    /// can drop their bookkeeping.
    #[verifier::rlimit(50)]
    pub fn remove_unused_headers(&mut self, header_info: &BlockHeaderInfo) -> (r: Vec<HashId>)
        requires
            old(self).wf(),
        ensures
            final(self).wf(),
            final(self)@ == spec_prune_state(old(self)@, header_info@),
            r@ == spec_pruned_txids(old(self)@, header_info@),
    {
        let reserved = self.reserved as u64;
        if header_info.height <= reserved {
            proof {
                assert(self@ =~~= spec_prune_state(old(self)@, header_info@));
            }
            return Vec::new();
        }
        let del = header_info.height - reserved;
        let ghost v0 = old(self)@;
        let hashes: Vec<HashId> = match self.index.remove(&del) {
            Some(v) => v,
            None => Vec::new(),
        };
        let ghost hs = hashes@;
        proof {
            assert(self@.index =~= v0.index.remove(del));
            if !v0.index.contains_key(del) {
                assert(hs =~= Seq::<HashId>::empty());
            }
        }
        let mut out: Vec<HashId> = Vec::new();
        let mut j: usize = 0;
        while j < hashes.len()
            invariant
                j <= hs.len(),
                hashes@ == hs,
                v0.index.contains_key(del) ==> hs == v0.index[del],
                !v0.index.contains_key(del) ==> hs.len() == 0,
                hs.no_duplicates(),
                forall|m: int| 0 <= m < hs.len() ==> v0.headers.contains_key(#[trigger] hs[m])
                    && v0.headers[hs[m]].height == del,
                forall|h: HashId| #[trigger] self@.headers.contains_key(h)
                    <==> v0.headers.contains_key(h) && !hs.take(j as int).contains(h),
                forall|h: HashId| #[trigger] self@.headers.contains_key(h)
                    ==> self@.headers[h] == v0.headers[h],
                self@.index == v0.index.remove(del),
                self@.best == v0.best && self@.genesis == v0.genesis
                    && self@.genesis_height == v0.genesis_height && self@.k == v0.k
                    && self@.reserved == v0.reserved,
                out@ == spec_collect_txids(v0.headers, hs.take(j as int)),
            decreases hs.len() - j,
        {
            let h = hashes[j];
            let ghost pre = self@.headers;
            proof {
                assert(!hs.take(j as int).contains(h));
                assert(self@.headers.contains_key(h));
            }
            let mut rec = self.headers.remove(&h).unwrap();
            let ghost txs = rec.txid_list@;
            proof {
                assert(txs == v0.headers[h].txids);
            }
            out.append(&mut rec.txid_list);
            j = j + 1;
            proof {
                assert(hs.take(j as int) =~= hs.take(j as int - 1).push(h));
                lemma_collect_txids_push(v0.headers, hs.take(j as int - 1), h);
                assert(hs.take(j as int)[j as int - 1] == h);
                assert forall|h2: HashId| #[trigger] self@.headers.contains_key(h2)
                    implies v0.headers.contains_key(h2)
                        && !hs.take(j as int).contains(h2) by {
                    assert(self@.headers.contains_key(h2)
                        == (pre.contains_key(h2) && h2 != h));
                    if hs.take(j as int).contains(h2) {
                        let w = choose|w: int|
                            0 <= w < j && #[trigger] hs.take(j as int)[w] == h2;
                        assert(w != j - 1);
                        assert(hs.take(j as int - 1)[w] == h2);
                        assert(hs.take(j as int - 1).contains(h2));
                    }
                }
                assert forall|h2: HashId| #[trigger] self@.headers.contains_key(h2)
                    implies self@.headers[h2] == v0.headers[h2] by {
                    assert(pre.contains_key(h2) && h2 != h);
                    assert(self@.headers[h2] == pre[h2]);
                }
                assert forall|h2: HashId|
                    v0.headers.contains_key(h2) && !hs.take(j as int).contains(h2)
                    implies #[trigger] self@.headers.contains_key(h2) by {
                    assert(h2 != h);
                    assert(self@.headers.contains_key(h2)
                        == (pre.contains_key(h2) && h2 != h));
                    if hs.take(j as int - 1).contains(h2) {
                        let w = choose|w: int|
                            0 <= w < j - 1 && #[trigger] hs.take(j as int - 1)[w] == h2;
                        assert(hs.take(j as int)[w] == h2);
                        assert(hs.take(j as int).contains(h2));
                    }
                }
            }
        }
        proof {
            assert(hs.take(hs.len() as int) =~= hs);
            let v1 = spec_prune_state(v0, header_info@);
            assert forall|h: HashId| #[trigger] self@.headers.contains_key(h)
                <==> v1.headers.contains_key(h) by {
                if v0.headers.contains_key(h) {
                    if v0.headers[h].height == del {
                        assert(v0.index.contains_key(del) && v0.index[del].contains(h));
                        assert(hs.contains(h));
                    }
                    if hs.contains(h) {
                        assert(v0.headers[h].height == del);
                    }
                }
            }
            assert(self@.headers =~= v1.headers);
            assert(self@ =~~= v1);
            // well-formedness of the pruned store
            assert forall|h: HashId| #[trigger] self@.headers.contains_key(h)
                implies {
                    &&& self@.headers[h].hash == h
                    &&& self@.index.contains_key(self@.headers[h].height)
                    &&& self@.index[self@.headers[h].height].contains(h)
                } by {
                assert(v0.headers.contains_key(h));
                assert(v0.headers[h].height != del);
            }
        }
        out
    }

    /// Records a validated header: stores it under its hash, adds the hash
    /// to the height index, and — where the fork-choice collaborator says
    /// so — advances the best tip to it. Each hash is recorded once.
    #[verifier::rlimit(50)]
    pub fn accept_header(&mut self, info: BlockHeaderInfo, make_best: bool)
        requires
            old(self).wf(),
            !old(self)@.headers.contains_key(info.header.hash),
        ensures
            final(self).wf(),
            final(self)@ == spec_accept(old(self)@, info@, make_best),
    {
        let h = info.header.hash;
        let ht = info.height;
        let ghost v0 = old(self)@;
        let mut at_height: Vec<HashId> = match self.index.remove(&ht) {
            Some(v) => v,
            None => Vec::new(),
        };
        at_height.push(h);
        self.index.insert(ht, at_height);
        self.headers.insert(h, info);
        if make_best {
            self.best = h;
        }
        proof {
            let v1 = spec_accept(v0, info@, make_best);
            assert(self@.headers =~= v1.headers);
            assert(self@.index =~= v1.index);
            assert(self@ =~~= v1);
            // the fresh hash stands in no index entry of the old store
            assert forall|ht2: u64, j: int|
                #![trigger v0.index[ht2][j]]
                v0.index.contains_key(ht2) && 0 <= j < v0.index[ht2].len()
                implies v0.index[ht2][j] != h by {
                assert(v0.headers.contains_key(v0.index[ht2][j]));
            }
            assert forall|h2: HashId| #[trigger] self@.headers.contains_key(h2)
                implies {
                    &&& self@.headers[h2].hash == h2
                    &&& self@.index.contains_key(self@.headers[h2].height)
                    &&& self@.index[self@.headers[h2].height].contains(h2)
                } by {
                if h2 == h {
                    assert(self@.index[ht][self@.index[ht].len() - 1] == h);
                } else {
                    assert(v0.headers.contains_key(h2));
                    let ht2 = v0.headers[h2].height;
                    assert(v0.index[ht2].contains(h2));
                    if ht2 == ht {
                        let w = choose|w: int| 0 <= w < v0.index[ht].len()
                            && v0.index[ht][w] == h2;
                        assert(self@.index[ht][w] == h2);
                    }
                }
            }
            assert forall|ht2: u64, j: int|
                #![trigger self@.index[ht2][j]]
                self@.index.contains_key(ht2) && 0 <= j < self@.index[ht2].len()
                implies self@.headers.contains_key(self@.index[ht2][j])
                    && self@.headers[self@.index[ht2][j]].height == ht2 by {
                if ht2 == ht && j == self@.index[ht].len() - 1 {
                    assert(self@.index[ht2][j] == h);
                } else {
                    assert(self@.index[ht2][j] == v0.index[ht2][j]);
                    assert(v0.index[ht2][j] != h);
                }
            }
            assert forall|ht2: u64| #[trigger] self@.index.contains_key(ht2)
                implies self@.index[ht2].no_duplicates() by {
                if ht2 == ht {
                    let s_new = self@.index[ht];
                    assert forall|a: int, b: int|
                        0 <= a < s_new.len() && 0 <= b < s_new.len() && a != b
                        implies s_new[a] != s_new[b] by {
                        if v0.index.contains_key(ht) {
                            assert(v0.index[ht].no_duplicates());
                            if a < s_new.len() - 1 && b < s_new.len() - 1 {
                                assert(s_new[a] == v0.index[ht][a]);
                                assert(s_new[b] == v0.index[ht][b]);
                            } else if a == s_new.len() - 1 {
                                assert(s_new[a] == h && s_new[b] == v0.index[ht][b]);
                            } else {
                                assert(s_new[b] == h && s_new[a] == v0.index[ht][a]);
                            }
                        }
                    }
                }
            }
        }
    }
}

/// State effect of accepting a validated record: it is stored under its
/// hash, its hash joins the height index, and the best tip moves to it
/// when the fork choice says so.
pub open spec fn spec_accept(v: StoreView, rec: HeaderView, make_best: bool) -> StoreView {
    StoreView {
        headers: v.headers.insert(rec.hash, rec),
        index: v.index.insert(
            rec.height,
            (if v.index.contains_key(rec.height) {
                v.index[rec.height]
            } else {
                Seq::<HashId>::empty()
            }).push(rec.hash),
        ),
        best: if make_best {
            rec.hash
        } else {
            v.best
        },
        ..v
    }
}

/// The record validation builds for an accepted candidate.
pub open spec fn spec_new_record(v: StoreView, header: BlockHeader) -> HeaderView {
    HeaderView {
        hash: header.hash,
        prev: header.previous_header_hash,
        height: (v.headers[header.previous_header_hash].height + 1) as u64,
        confirmed: false,
        txids: Seq::<HashId>::empty(),
    }
}

/// The whole state effect of pushing one accepted header: record it, move
/// the confirmation checkpoint, prune what fell out of the window.
pub open spec fn spec_push_state(v: StoreView, header: BlockHeader, make_best: bool)
    -> StoreView {
    let rec = spec_new_record(v, header);
    let va = spec_accept(v, rec, make_best);
    let vb = spec_confirm_state(va, rec);
    spec_prune_state(vb, rec)
}

/// What one successful push reports back to its caller.
pub struct PushResult {
    /// The confirmation checkpoint this push produced (the genesis pair
    /// when the stored chain is still shorter than the window).
    pub confirmed_hash: HashId,
    pub confirmed_height: u64,
    /// Transaction ids of the newly confirmed header, for the settlement
    /// dispatcher.
    pub settled_txids: Vec<HashId>,
    /// Transaction ids of the pruned headers, for the dispatcher to drop.
    pub pruned_txids: Vec<HashId>,
}

impl HeaderStore {
    /// The dispatch entry for one candidate header: validates it, records
    /// it (advancing the best tip when the fork-choice collaborator says
    /// so), moves the confirmation checkpoint, and prunes history outside
    /// the reserved window — confirmation strictly before pruning. Any
    /// validation error leaves the store untouched. Each hash is pushed at
    /// most once, and the height precondition is a machine limit of the
    /// 64-bit height counter.
    pub fn push_header(&mut self, header: BlockHeader, make_best: bool)
        -> (r: Result<PushResult, ChainErr>)
        requires
            old(self).wf(),
            !old(self)@.headers.contains_key(header.hash),
            old(self)@.headers.contains_key(header.previous_header_hash)
                ==> old(self)@.headers[header.previous_header_hash].height < u64::MAX,
        ensures
            final(self).wf(),
            r is Err ==> final(self)@ == old(self)@,
            r == Err::<PushResult, ChainErr>(ChainErr::UnknownParent)
                <==> !old(self)@.headers.contains_key(header.previous_header_hash),
            r == Err::<PushResult, ChainErr>(ChainErr::NotFound)
                <==> old(self)@.headers.contains_key(header.previous_header_hash)
                    && !old(self)@.headers.contains_key(old(self)@.best),
            r == Err::<PushResult, ChainErr>(ChainErr::AncientFork)
                <==> spec_validation_inputs_ok(old(self)@, header)
                    && spec_ancient(old(self)@, header),
            r is Ok <==> spec_validation_inputs_ok(old(self)@, header)
                && !spec_ancient(old(self)@, header),
            r is Ok ==> ({
                let v0 = old(self)@;
                let rec = spec_new_record(v0, header);
                let va = spec_accept(v0, rec, make_best);
                let vb = spec_confirm_state(va, rec);
                &&& final(self)@ == spec_push_state(v0, header, make_best)
                &&& (r.unwrap().confirmed_hash, r.unwrap().confirmed_height)
                    == spec_confirm_report(va, rec)
                &&& r.unwrap().settled_txids@ == spec_confirm_settled(va, rec)
                &&& r.unwrap().pruned_txids@ == spec_pruned_txids(vb, rec)
            }),
    {
        let rec = match self.check_prev_and_convert(header) {
            Ok(rec) => rec,
            Err(e) => {
                return Err(e);
            },
        };
        let ghost v0 = self@;
        self.accept_header(rec.clone(), make_best);
        proof {
            assert(rec@ == spec_new_record(v0, header));
            assert(self@ == spec_accept(v0, rec@, make_best));
        }
        let ((confirmed_hash, confirmed_height), settled_txids) =
            self.update_confirmed_header(&rec);
        let pruned_txids = self.remove_unused_headers(&rec);
        Ok(PushResult { confirmed_hash, confirmed_height, settled_txids, pruned_txids })
    }
}

/// Both lookups validation needs: the candidate's parent and the best
/// tip's record.
pub open spec fn spec_validation_inputs_ok(v: StoreView, header: BlockHeader) -> bool {
    &&& v.headers.contains_key(header.previous_header_hash)
    &&& v.headers.contains_key(v.best)
}

/// The candidate would extend a branch older than the confirmation window:
/// its height lies at or below `best_height - (K - 1)`.
pub open spec fn spec_ancient(v: StoreView, header: BlockHeader) -> bool {
    v.headers[header.previous_header_hash].height + 1 + (v.k - 1)
        <= v.headers[v.best].height
}

} // verus!
