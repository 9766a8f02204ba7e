//! Laws of the header-chain tracker over a linear chain.
//!
//! `chain_state` describes the store that pushing one fork-free chain of
//! headers produces: which records are stored (the genesis and the last
//! reserved window of heights), what each holds, and which are confirmed
//! (exactly those deeper than the sliding finality window). The lemmas
//! prove that a fresh store satisfies it and that `push_header`'s state
//! effect preserves it — accepting every consecutive header and confirming
//! exactly one further header per push, in increasing height order — and
//! what follows: the count of confirmed headers and the pruning bound.

use vstd::prelude::*;
use vstd::set_lib::{lemma_int_range, set_int_range};
use crate::types::HashId;
use crate::header::{BlockHeader, HeaderView, StoreView, spec_accept, spec_ancient,
    spec_confirm_state, spec_del_height, spec_new_record, spec_prune_state, spec_push_state,
    spec_steps, spec_validation_inputs_ok, spec_walk};

verus! {

/// How far the confirmation checkpoint trails the tip: `K - 1` heights,
/// except that a depth of one still trails by one (the walk starts at the
/// tip's parent).
pub open spec fn eff_window(k: u32) -> int {
    if k == 1 {
        1
    } else {
        (k - 1) as int
    }
}

/// The lowest non-genesis height still stored when the tip stands at `n`.
pub open spec fn lo_kept(n: int, reserved: u32) -> int {
    if n > reserved {
        n - reserved + 1
    } else {
        1
    }
}

/// Whether height `i` lies in the stored region `{0} ∪ [lo, n]`.
pub open spec fn kept_from(i: int, n: int, lo: int) -> bool {
    i == 0 || (lo <= i <= n)
}

/// The candidate that extends the chain to height `i`.
pub open spec fn chain_header(hs: Seq<HashId>, i: int) -> BlockHeader
    recommends
        1 <= i < hs.len(),
{
    BlockHeader { hash: hs[i], previous_header_hash: hs[i - 1] }
}

/// The shape a linear chain gives the store, parameterized by the stored
/// region's lower bound `lo` and the confirmed region's upper bound `w`:
/// `hs` names the chain's headers by height, `hs[0]` being the genesis at
/// height zero, whose stored parent pointer `gp` names nothing; the best
/// tip stands at height `n`; stored are the genesis and heights `lo..=n`,
/// each linked to its parent; confirmed are exactly the heights up to `w`.
pub open spec fn chain_rep(
    v: StoreView,
    hs: Seq<HashId>,
    gp: HashId,
    n: int,
    lo: int,
    w: int,
) -> bool {
    &&& 0 <= n < hs.len()
    &&& hs.len() <= u64::MAX
    &&& 1 <= lo
    &&& (n == 0 || lo <= n)
    &&& w < n
    &&& hs.no_duplicates()
    &&& !hs.contains(gp)
    &&& v.genesis == hs[0]
    &&& v.genesis_height == 0
    &&& v.best == hs[n]
    &&& forall|h: HashId| #[trigger] v.headers.contains_key(h)
        ==> exists|i: int|
            #![trigger hs[i]]
            0 <= i < hs.len() && kept_from(i, n, lo) && hs[i] == h
    &&& forall|i: int|
        #![trigger hs[i]]
        0 <= i < hs.len() && kept_from(i, n, lo) ==> {
            &&& v.headers.contains_key(hs[i])
            &&& v.headers[hs[i]].hash == hs[i]
            &&& v.headers[hs[i]].prev == if i == 0 {
                gp
            } else {
                hs[i - 1]
            }
            &&& v.headers[hs[i]].height == i as u64
            &&& (v.headers[hs[i]].confirmed <==> i <= w)
        }
    &&& forall|ht: u64| #[trigger] v.index.contains_key(ht)
        <==> (ht < hs.len() && kept_from(ht as int, n, lo))
    &&& forall|ht: u64| #[trigger] v.index.contains_key(ht)
        ==> v.index[ht] == seq![hs[ht as int]]
}

/// The store one fork-free chain produces once the tip stands at height
/// `n`: the stored region follows the reserved window and the confirmed
/// region the sliding finality window.
pub open spec fn chain_state(v: StoreView, hs: Seq<HashId>, gp: HashId, n: int) -> bool {
    &&& v.k >= 1
    &&& v.reserved >= v.k
    &&& chain_rep(v, hs, gp, n, lo_kept(n, v.reserved), n - eff_window(v.k))
}

/// A fresh store on the chain's genesis satisfies the chain invariant with
/// the tip at height zero.
pub proof fn lemma_chain_state_init(v: StoreView, hs: Seq<HashId>, gp: HashId)
    requires
        1 <= hs.len(),
        hs.len() <= u64::MAX,
        hs.no_duplicates(),
        !hs.contains(gp),
        v.k >= 1,
        v.reserved >= v.k,
        v.genesis == hs[0],
        v.genesis_height == 0,
        v.best == hs[0],
        v.headers == Map::<HashId, HeaderView>::empty().insert(
            hs[0],
            HeaderView {
                hash: hs[0],
                prev: gp,
                height: 0,
                confirmed: false,
                txids: Seq::<HashId>::empty(),
            },
        ),
        v.index == Map::<u64, Seq<HashId>>::empty().insert(0u64, seq![hs[0]]),
    ensures
        chain_state(v, hs, gp, 0),
{
    assert forall|h: HashId| #[trigger] v.headers.contains_key(h)
        implies exists|i: int|
            #![trigger hs[i]]
            0 <= i < hs.len() && kept_from(i, 0, 1) && hs[i] == h by {
        assert(h == hs[0]);
        assert(kept_from(0, 0, 1));
    }
    assert forall|ht: u64| #[trigger] v.index.contains_key(ht)
        implies (ht < hs.len() && kept_from(ht as int, 0, 1)) by {
        assert(ht == 0);
    }
    assert forall|ht: u64| ht < hs.len() && kept_from(ht as int, 0, 1)
        implies #[trigger] v.index.contains_key(ht) by {
        assert(ht as int == 0);
    }
    assert(0 - eff_window(v.k) < 0);
}

/// Walking `steps` parent pointers down a stored chain segment lands
/// `steps` heights lower; a walk that would pass the genesis leaves the
/// stored chain at the genesis's parent pointer and stays there.
proof fn lemma_walk_chain(
    m: Map<HashId, HeaderView>,
    hs: Seq<HashId>,
    gp: HashId,
    lo: int,
    j: int,
    steps: nat,
)
    requires
        hs.no_duplicates(),
        !m.contains_key(gp),
        0 <= j < hs.len(),
        lo >= 1,
        j == 0 || j >= lo,
        forall|i: int|
            #![trigger hs[i]]
            (i == 0 || lo <= i) && 0 <= i <= j ==> m.contains_key(hs[i])
                && m[hs[i]].prev == (if i == 0 {
                    gp
                } else {
                    hs[i - 1]
                }),
        j - steps >= lo || lo == 1,
    ensures
        (j - steps >= lo || (lo == 1 && j - steps >= 0))
            ==> spec_walk(m, hs[j], steps) == hs[j - steps],
        (lo == 1 && j - steps < 0) ==> spec_walk(m, hs[j], steps) == gp,
    decreases steps,
{
    if steps == 0 {
    } else {
        assert(m.contains_key(hs[j]));
        if j == 0 {
            assert(m[hs[0]].prev == gp);
            assert(spec_walk(m, hs[0], steps) == spec_walk(m, gp, (steps - 1) as nat));
            assert(spec_walk(m, gp, (steps - 1) as nat) == gp);
        } else {
            assert(m[hs[j]].prev == hs[j - 1]);
            lemma_walk_chain(m, hs, gp, lo, j - 1, (steps - 1) as nat);
        }
    }
}

/// Accepting the next consecutive header is never rejected, and extends the
/// stored region by the new tip, confirming nothing yet.
#[verifier::rlimit(100)]
proof fn lemma_accept_step(v0: StoreView, hs: Seq<HashId>, gp: HashId, n: int, lo: int, w: int)
    requires
        chain_rep(v0, hs, gp, n, lo, w),
        n + 1 < hs.len(),
        v0.k >= 1,
        n == 0 ==> lo == 1,
    ensures
        spec_validation_inputs_ok(v0, chain_header(hs, n + 1)),
        !spec_ancient(v0, chain_header(hs, n + 1)),
        !v0.headers.contains_key(hs[n + 1]),
        v0.headers[hs[n]].height < u64::MAX,
        spec_new_record(v0, chain_header(hs, n + 1)) == (HeaderView {
            hash: hs[n + 1],
            prev: hs[n],
            height: (n + 1) as u64,
            confirmed: false,
            txids: Seq::<HashId>::empty(),
        }),
        chain_rep(
            spec_accept(v0, spec_new_record(v0, chain_header(hs, n + 1)), true),
            hs,
            gp,
            n + 1,
            lo,
            w,
        ),
{
    let header = chain_header(hs, n + 1);
    assert(kept_from(n, n, lo));
    assert(v0.headers.contains_key(hs[n]) && v0.headers[hs[n]].height == n as u64);
    assert(!v0.headers.contains_key(hs[n + 1])) by {
        if v0.headers.contains_key(hs[n + 1]) {
            let i = choose|i: int|
                #![trigger hs[i]]
                0 <= i < hs.len() && kept_from(i, n, lo) && hs[i] == hs[n + 1];
            assert(i != n + 1);
        }
    }
    let rec = spec_new_record(v0, header);
    let va = spec_accept(v0, rec, true);
    assert(!kept_from(n + 1, n, lo));
    assert(!v0.index.contains_key((n + 1) as u64));
    assert(va.index[(n + 1) as u64] == seq![hs[n + 1]]) by {
        assert(Seq::<HashId>::empty().push(hs[n + 1]) =~= seq![hs[n + 1]]);
    }
    assert forall|h: HashId| #[trigger] va.headers.contains_key(h)
        implies exists|i: int|
            #![trigger hs[i]]
            0 <= i < hs.len() && kept_from(i, n + 1, lo) && hs[i] == h by {
        if h == hs[n + 1] {
            assert(kept_from(n + 1, n + 1, lo));
        } else {
            assert(v0.headers.contains_key(h));
            let i = choose|i: int|
                #![trigger hs[i]]
                0 <= i < hs.len() && kept_from(i, n, lo) && hs[i] == h;
            assert(kept_from(i, n + 1, lo));
        }
    }
    assert forall|i: int|
        #![trigger hs[i]]
        0 <= i < hs.len() && kept_from(i, n + 1, lo)
        implies {
            &&& va.headers.contains_key(hs[i])
            &&& va.headers[hs[i]].hash == hs[i]
            &&& va.headers[hs[i]].prev == if i == 0 {
                gp
            } else {
                hs[i - 1]
            }
            &&& va.headers[hs[i]].height == i as u64
            &&& (va.headers[hs[i]].confirmed <==> i <= w)
        } by {
        if i == n + 1 {
            assert(va.headers[hs[n + 1]] == rec);
            assert(!(n + 1 <= w));
        } else {
            assert(kept_from(i, n, lo));
            assert(hs[i] != hs[n + 1]);
            assert(va.headers[hs[i]] == v0.headers[hs[i]]);
        }
    }
    assert forall|ht: u64| #[trigger] va.index.contains_key(ht)
        implies (ht < hs.len() && kept_from(ht as int, n + 1, lo)) by {
        if ht != (n + 1) as u64 {
            assert(v0.index.contains_key(ht));
            assert(kept_from(ht as int, n, lo));
        }
    }
    assert forall|ht: u64| ht < hs.len() && kept_from(ht as int, n + 1, lo)
        implies #[trigger] va.index.contains_key(ht) by {
        if ht as int != n + 1 {
            assert(kept_from(ht as int, n, lo));
            assert(v0.index.contains_key(ht));
        }
    }
    assert forall|ht: u64| #[trigger] va.index.contains_key(ht)
        implies va.index[ht] == seq![hs[ht as int]] by {
        if ht != (n + 1) as u64 {
            assert(v0.index.contains_key(ht));
            assert(va.index[ht] == v0.index[ht]);
        }
    }
}

/// Flipping the stored header at height `t` to confirmed moves the
/// confirmed region's bound from `t - 1` up to `t`.
#[verifier::rlimit(100)]
proof fn lemma_flip_rep(
    va: StoreView,
    hs: Seq<HashId>,
    gp: HashId,
    n: int,
    lo: int,
    t: int,
)
    requires
        chain_rep(va, hs, gp, n, lo, t - 1),
        0 <= t < n,
        kept_from(t, n, lo),
    ensures
        chain_rep(
            StoreView {
                headers: va.headers.insert(
                    hs[t],
                    HeaderView { confirmed: true, ..va.headers[hs[t]] },
                ),
                ..va
            },
            hs,
            gp,
            n,
            lo,
            t,
        ),
{
    let vb = StoreView {
        headers: va.headers.insert(hs[t], HeaderView { confirmed: true, ..va.headers[hs[t]] }),
        ..va
    };
    assert(va.headers.contains_key(hs[t]));
    assert forall|h: HashId| #[trigger] vb.headers.contains_key(h)
        implies exists|i: int|
            #![trigger hs[i]]
            0 <= i < hs.len() && kept_from(i, n, lo) && hs[i] == h by {
        assert(va.headers.contains_key(h));
    }
    assert forall|i: int|
        #![trigger hs[i]]
        0 <= i < hs.len() && kept_from(i, n, lo)
        implies {
            &&& vb.headers.contains_key(hs[i])
            &&& vb.headers[hs[i]].hash == hs[i]
            &&& vb.headers[hs[i]].prev == if i == 0 {
                gp
            } else {
                hs[i - 1]
            }
            &&& vb.headers[hs[i]].height == i as u64
            &&& (vb.headers[hs[i]].confirmed <==> i <= t)
        } by {
        if i == t {
            assert(vb.headers[hs[t]].confirmed);
        } else {
            assert(hs[i] != hs[t]);
            assert(vb.headers[hs[i]] == va.headers[hs[i]]);
            assert((i <= t - 1) == (i <= t)) by {
                assert(i != t);
            }
        }
    }
}

/// The confirmation step after the tip moved to `n`: the walk lands
/// `eff_window` heights below the tip and flips exactly that header to
/// confirmed; while the chain is shorter than the window it leaves the
/// store unchanged.
#[verifier::rlimit(100)]
proof fn lemma_confirm_step(
    va: StoreView,
    hs: Seq<HashId>,
    gp: HashId,
    n: int,
    lo: int,
    rec: HeaderView,
)
    requires
        chain_rep(va, hs, gp, n, lo, n - 1 - eff_window(va.k)),
        va.k >= 1,
        n >= 1,
        rec.prev == hs[n - 1],
        rec.height == n as u64,
        n - eff_window(va.k) >= lo || lo == 1,
    ensures
        chain_rep(
            spec_confirm_state(va, rec),
            hs,
            gp,
            n,
            lo,
            n - eff_window(va.k),
        ),
        spec_confirm_state(va, rec).k == va.k,
        spec_confirm_state(va, rec).reserved == va.reserved,
        spec_confirm_state(va, rec).index == va.index,
{
    let k = va.k;
    let effw = eff_window(k);
    let w0 = n - 1 - effw;
    let steps = spec_steps(k);
    let t = n - effw;
    assert((n - 1) - steps == t);
    assert(!va.headers.contains_key(gp)) by {
        if va.headers.contains_key(gp) {
            let i = choose|i: int|
                #![trigger hs[i]]
                0 <= i < hs.len() && kept_from(i, n, lo) && hs[i] == gp;
            assert(hs.contains(gp));
        }
    }
    assert(kept_from(n - 1, n, lo) || n - 1 == 0);
    assert forall|i: int|
        #![trigger hs[i]]
        (i == 0 || lo <= i) && 0 <= i <= n - 1
        implies va.headers.contains_key(hs[i]) && va.headers[hs[i]].prev == (if i == 0 {
            gp
        } else {
            hs[i - 1]
        }) by {
        assert(kept_from(i, n, lo));
    }
    lemma_walk_chain(va.headers, hs, gp, lo, n - 1, steps);
    let c = spec_walk(va.headers, rec.prev, steps);
    let vb = spec_confirm_state(va, rec);
    if t >= lo || (lo == 1 && t >= 0) {
        assert(c == hs[t]);
        assert(0 <= t <= n - 1);
        assert(kept_from(t, n, lo));
        assert(va.headers.contains_key(hs[t]));
        assert(!va.headers[hs[t]].confirmed) by {
            assert(!(t <= w0));
        }
        assert(vb == (StoreView {
            headers: va.headers.insert(
                hs[t],
                HeaderView { confirmed: true, ..va.headers[hs[t]] },
            ),
            ..va
        }));
        lemma_flip_rep(va, hs, gp, n, lo, t);
    } else {
        assert(lo == 1 && t < 0);
        assert(c == gp);
        assert(!va.headers.contains_key(c));
        assert(vb == va);
        assert forall|i: int|
            #![trigger hs[i]]
            0 <= i < hs.len() && kept_from(i, n, lo)
            implies (vb.headers[hs[i]].confirmed <==> i <= t) by {
            assert(!(i <= w0) && !(i <= t)) by {
                assert(t < 0 && w0 < t);
            }
        }
    }
}

/// The pruning step after the tip moved to `n`: while the tip is inside
/// the reserved window nothing happens; beyond it, exactly the lowest
/// stored non-genesis height disappears.
#[verifier::rlimit(100)]
proof fn lemma_prune_step(
    vb: StoreView,
    hs: Seq<HashId>,
    gp: HashId,
    n: int,
    w: int,
    rec: HeaderView,
)
    requires
        chain_rep(vb, hs, gp, n, lo_kept(n - 1, vb.reserved), w),
        vb.reserved >= 1,
        n >= 1,
        rec.height == n as u64,
    ensures
        chain_rep(
            spec_prune_state(vb, rec),
            hs,
            gp,
            n,
            lo_kept(n, vb.reserved),
            w,
        ),
        spec_prune_state(vb, rec).k == vb.k,
        spec_prune_state(vb, rec).reserved == vb.reserved,
        spec_prune_state(vb, rec).best == vb.best,
{
    let r = vb.reserved;
    let lo0 = lo_kept(n - 1, r);
    let lo1 = lo_kept(n, r);
    let v1 = spec_prune_state(vb, rec);
    if n <= r {
        assert(!(rec.height > r as u64));
        assert(v1 == vb);
        assert(lo1 == lo0);
    } else {
        assert(rec.height > r as u64);
        let del: int = n - r;
        assert(spec_del_height(rec.height, r) == del as u64);
        assert(del == lo0);
        assert(lo1 == lo0 + 1);
        assert forall|h: HashId| #[trigger] v1.headers.contains_key(h)
            implies exists|i: int|
                #![trigger hs[i]]
                0 <= i < hs.len() && kept_from(i, n, lo1) && hs[i] == h by {
            assert(vb.headers.contains_key(h));
            let i = choose|i: int|
                #![trigger hs[i]]
                0 <= i < hs.len() && kept_from(i, n, lo0) && hs[i] == h;
            assert(vb.headers[hs[i]].height == i as u64);
            assert(vb.headers[h].height != del as u64);
            assert(i != del);
            assert(kept_from(i, n, lo1));
        }
        assert forall|i: int|
            #![trigger hs[i]]
            0 <= i < hs.len() && kept_from(i, n, lo1)
            implies {
                &&& v1.headers.contains_key(hs[i])
                &&& v1.headers[hs[i]].hash == hs[i]
                &&& v1.headers[hs[i]].prev == if i == 0 {
                    gp
                } else {
                    hs[i - 1]
                }
                &&& v1.headers[hs[i]].height == i as u64
                &&& (v1.headers[hs[i]].confirmed <==> i <= w)
            } by {
            assert(kept_from(i, n, lo0));
            assert(vb.headers.contains_key(hs[i]));
            assert(i != del);
            assert(vb.headers[hs[i]].height == i as u64);
            assert(i as u64 != del as u64);
            assert(v1.headers.contains_key(hs[i]));
            assert(v1.headers[hs[i]] == vb.headers[hs[i]]);
        }
        assert forall|ht: u64| #[trigger] v1.index.contains_key(ht)
            implies (ht < hs.len() && kept_from(ht as int, n, lo1)) by {
            assert(vb.index.contains_key(ht));
            assert(ht != del as u64);
            assert(kept_from(ht as int, n, lo0));
            assert(ht as int != del);
        }
        assert forall|ht: u64| ht < hs.len() && kept_from(ht as int, n, lo1)
            implies #[trigger] v1.index.contains_key(ht) by {
            assert(kept_from(ht as int, n, lo0));
            assert(vb.index.contains_key(ht));
            assert(ht as int != del);
            assert(ht != del as u64);
        }
        assert forall|ht: u64| #[trigger] v1.index.contains_key(ht)
            implies v1.index[ht] == seq![hs[ht as int]] by {
            assert(vb.index.contains_key(ht));
            assert(v1.index[ht] == vb.index[ht]);
        }
    }
}

/// One push preserves the chain invariant: the next consecutive header is
/// accepted (never rejected), the tip moves up one height, the stored
/// region follows the reserved window, and the confirmed region follows
/// the sliding finality window — one further header confirmed per push,
/// in increasing height order.
#[verifier::rlimit(100)]
pub proof fn lemma_push_step(v0: StoreView, hs: Seq<HashId>, gp: HashId, n: int)
    requires
        chain_state(v0, hs, gp, n),
        n + 1 < hs.len(),
    ensures
        spec_validation_inputs_ok(v0, chain_header(hs, n + 1)),
        !spec_ancient(v0, chain_header(hs, n + 1)),
        !v0.headers.contains_key(hs[n + 1]),
        v0.headers[hs[n]].height < u64::MAX,
        chain_state(spec_push_state(v0, chain_header(hs, n + 1), true), hs, gp, n + 1),
{
    let header = chain_header(hs, n + 1);
    let k = v0.k;
    let r = v0.reserved;
    let effw = eff_window(k);
    let lo0 = lo_kept(n, r);
    let w0 = n - effw;
    lemma_accept_step(v0, hs, gp, n, lo0, w0);
    let rec = spec_new_record(v0, header);
    let va = spec_accept(v0, rec, true);
    assert(va.k == k && va.reserved == r);
    assert(n + 1 - eff_window(va.k) >= lo0 || lo0 == 1) by {
        if lo0 != 1 {
            assert(n > r);
            assert(effw <= r);
        }
    }
    lemma_confirm_step(va, hs, gp, n + 1, lo0, rec);
    let vb = spec_confirm_state(va, rec);
    assert(lo_kept(n, vb.reserved) == lo0);
    lemma_prune_step(vb, hs, gp, n + 1, n + 1 - effw, rec);
    let v1 = spec_prune_state(vb, rec);
    assert(v1 == spec_push_state(v0, header, true));
    assert(chain_rep(v1, hs, gp, n + 1, lo_kept(n + 1, r), n + 1 - eff_window(k)));
}

/// Law of the sliding finality window: once a chain of `N >= K`
/// consecutive headers stands on the genesis (`K >= 2`; within the
/// reserved window, so nothing is pruned yet), the confirmed headers among
/// them are exactly those at heights `1..=N-K+1` — there are exactly
/// `N - K + 1` of them. Together with `lemma_push_step`, which moves the
/// confirmed bound up by exactly one height per push, each of them
/// transitioned exactly once, in increasing height order.
pub proof fn lemma_sliding_finality(v: StoreView, hs: Seq<HashId>, gp: HashId, n: int)
    requires
        chain_state(v, hs, gp, n),
        v.k >= 2,
        n >= v.k,
        n <= v.reserved,
    ensures
        forall|i: int| 0 <= i <= n ==> v.headers.contains_key(#[trigger] hs[i]),
        forall|i: int| 1 <= i <= n ==> (v.headers[#[trigger] hs[i]].confirmed
            <==> i <= n - (v.k - 1)),
        Set::new(|i: int| 1 <= i <= n && v.headers[hs[i]].confirmed).len()
            == n - (v.k - 1),
{
    let k = v.k;
    assert forall|i: int| 0 <= i <= n
        implies v.headers.contains_key(#[trigger] hs[i]) by {
        assert(kept_from(i, n, 1));
    }
    assert forall|i: int| 1 <= i <= n
        implies (v.headers[#[trigger] hs[i]].confirmed <==> i <= n - (k - 1)) by {
        assert(kept_from(i, n, 1));
        assert(eff_window(k) == k - 1);
    }
    let confirmed_heights = Set::new(|i: int| 1 <= i <= n && v.headers[hs[i]].confirmed);
    assert(confirmed_heights =~= set_int_range(1, n - (k - 1) + 1)) by {
        assert forall|i: int| confirmed_heights.contains(i)
            implies set_int_range(1, n - (k - 1) + 1).contains(i) by {
            assert(kept_from(i, n, 1));
        }
        assert forall|i: int| set_int_range(1, n - (k - 1) + 1).contains(i)
            implies confirmed_heights.contains(i) by {
            assert(kept_from(i, n, 1));
        }
    }
    lemma_int_range(1, n - (k - 1) + 1);
}

/// Law of the reserved window: once the tip stands more than the window
/// above the genesis, none of the chain's headers at heights at or below
/// `tip - window` can be retrieved any more — the genesis record alone
/// outlives the window — while every height above the bound, up to the
/// tip, is still stored.
pub proof fn lemma_pruned_window(v: StoreView, hs: Seq<HashId>, gp: HashId, n: int)
    requires
        chain_state(v, hs, gp, n),
        n > v.reserved,
    ensures
        forall|i: int| 1 <= i <= n - v.reserved ==> !v.headers.contains_key(#[trigger] hs[i]),
        forall|i: int| n - v.reserved < i <= n ==> v.headers.contains_key(#[trigger] hs[i]),
        v.headers.contains_key(hs[0]),
{
    let r = v.reserved;
    assert forall|i: int| 1 <= i <= n - r
        implies !v.headers.contains_key(#[trigger] hs[i]) by {
        if v.headers.contains_key(hs[i]) {
            let j = choose|j: int|
                #![trigger hs[j]]
                0 <= j < hs.len() && kept_from(j, n, lo_kept(n, r)) && hs[j] == hs[i];
            assert(j == i);
            assert(!kept_from(i, n, lo_kept(n, r)));
        }
    }
    assert forall|i: int| n - r < i <= n
        implies v.headers.contains_key(#[trigger] hs[i]) by {
        assert(kept_from(i, n, lo_kept(n, r)));
    }
    assert(kept_from(0, n, lo_kept(n, r)));
}

} // verus!