//! Laws of the withdrawal ledger.
//!
//! The ledger operations promise, in their contracts, that a submission
//! appends one id at its partition's tail (`submit_records_post`) and that
//! finishing removes exactly that id (`finish_records_post`), next to the
//! funds effects (`lock_post`, `unlock_post`, `destroy_post`). The lemmas
//! here state what follows for whole histories and for the
//! submission/finish round trips.

use vstd::prelude::*;
use crate::types::{AccountId, AssetId, Balance};
use crate::assets::{XAssets, destroy_post, lock_post, unlock_post};
use crate::records::{AssetRecords, finish_records_post};

verus! {

/// One abstract operation on a partition's pending sequence.
pub enum LedgerOp {
    Submit(u32),
    Finish(u32),
}

/// The effect each ledger operation has on a partition's pending sequence,
/// as the operations' contracts state it: a submission appends its id, a
/// finish removes its id at its place.
pub open spec fn apply_op(s: Seq<u32>, op: LedgerOp) -> Seq<u32> {
    match op {
        LedgerOp::Submit(id) => s.push(id),
        LedgerOp::Finish(id) => s.remove(s.index_of(id)),
    }
}

/// An operation the ledger accepts in this state: a submission's id is
/// fresh, a finish names a pending id.
pub open spec fn op_valid(s: Seq<u32>, op: LedgerOp) -> bool {
    match op {
        LedgerOp::Submit(id) => !s.contains(id),
        LedgerOp::Finish(id) => s.contains(id),
    }
}

pub open spec fn apply_ops(s: Seq<u32>, ops: Seq<LedgerOp>) -> Seq<u32>
    decreases ops.len(),
{
    if ops.len() == 0 {
        s
    } else {
        apply_ops(apply_op(s, ops[0]), ops.drop_first())
    }
}

pub open spec fn ops_valid(s: Seq<u32>, ops: Seq<LedgerOp>) -> bool
    decreases ops.len(),
{
    ops.len() == 0 || (op_valid(s, ops[0]) && ops_valid(apply_op(s, ops[0]), ops.drop_first()))
}

pub open spec fn count_submits(ops: Seq<LedgerOp>) -> int
    decreases ops.len(),
{
    if ops.len() == 0 {
        0
    } else {
        (if ops[0] is Submit {
            1int
        } else {
            0int
        }) + count_submits(ops.drop_first())
    }
}

pub open spec fn count_finishes(ops: Seq<LedgerOp>) -> int
    decreases ops.len(),
{
    if ops.len() == 0 {
        0
    } else {
        (if ops[0] is Finish {
            1int
        } else {
            0int
        }) + count_finishes(ops.drop_first())
    }
}

/// Law: over any sequence of accepted submissions and finishes on one
/// partition, the number of pending applications equals the starting count
/// plus the submissions minus the finishes.
pub proof fn lemma_pending_count(s: Seq<u32>, ops: Seq<LedgerOp>)
    requires
        ops_valid(s, ops),
    ensures
        apply_ops(s, ops).len() == s.len() + count_submits(ops) - count_finishes(ops),
    decreases ops.len(),
{
    if ops.len() > 0 {
        let s1 = apply_op(s, ops[0]);
        match ops[0] {
            LedgerOp::Submit(id) => {
                assert(s1.len() == s.len() + 1);
            },
            LedgerOp::Finish(id) => {
                let j = s.index_of(id);
                assert(0 <= j < s.len() && s[j] == id);
                assert(s1.len() == s.len() - 1);
            },
        }
        lemma_pending_count(s1, ops.drop_first());
    }
}

/// The ids a run of submissions carries, in order.
pub open spec fn submit_ids(ops: Seq<LedgerOp>) -> Seq<u32> {
    ops.map_values(|op: LedgerOp| op->Submit_0)
}

/// Law: a run of submissions alone extends the pending sequence by exactly
/// its ids, in submission order — the head-to-tail traversal is FIFO.
pub proof fn lemma_fifo_order(s: Seq<u32>, ops: Seq<LedgerOp>)
    requires
        forall|j: int| 0 <= j < ops.len() ==> ops[j] is Submit,
    ensures
        apply_ops(s, ops) == s + submit_ids(ops),
    decreases ops.len(),
{
    if ops.len() == 0 {
        assert(apply_ops(s, ops) =~= s + submit_ids(ops));
    } else {
        let s1 = apply_op(s, ops[0]);
        lemma_fifo_order(s1, ops.drop_first());
        assert(submit_ids(ops.drop_first()) =~= submit_ids(ops).drop_first());
        assert(s1 + submit_ids(ops).drop_first() =~= s + submit_ids(ops));
    }
}

/// Law: a submission of `value`, rolled back by an unsuccessful finish,
/// restores the applicant's free balance exactly and leaves every token's
/// total supply — and every other account's balances — unchanged.
pub proof fn lemma_submit_then_revoke_restores(
    a0: XAssets,
    a1: XAssets,
    a2: XAssets,
    who: AccountId,
    token: AssetId,
    value: Balance,
)
    requires
        lock_post(a0, a1, who, token, value),
        unlock_post(a1, a2, who, token, value),
    ensures
        a2.spec_free(who, token) == a0.spec_free(who, token),
        a2.spec_reserved(who, token) == a0.spec_reserved(who, token),
        forall|t: AssetId| #[trigger] a2.spec_total(t) == a0.spec_total(t),
        forall|w: AccountId, t: AssetId| !(w == who && t == token) ==>
            #[trigger] a2.spec_free(w, t) == a0.spec_free(w, t),
        forall|w: AccountId, t: AssetId| !(w == who && t == token) ==>
            #[trigger] a2.spec_reserved(w, t) == a0.spec_reserved(w, t),
{
}

/// Law: a submission of `value`, settled by a successful finish, lowers
/// the token's total supply by exactly `value`; the applicant's free
/// balance stays down by the withdrawn amount and the lock is gone. The
/// burn happens exactly once: the application is no longer pending after
/// the finish, and by `withdrawal_finish`'s contract a second finish of
/// the same id can only return `ApplicationNotFound`.
pub proof fn lemma_submit_then_finish_destroys(
    r1: AssetRecords,
    r2: AssetRecords,
    a0: XAssets,
    a1: XAssets,
    a2: XAssets,
    id: u32,
    who: AccountId,
    token: AssetId,
    value: Balance,
)
    requires
        lock_post(a0, a1, who, token, value),
        destroy_post(a1, a2, who, token, value),
        finish_records_post(r1, r2, id),
    ensures
        a2.spec_total(token) == a0.spec_total(token) - value,
        forall|t: AssetId| t != token ==> #[trigger] a2.spec_total(t) == a0.spec_total(t),
        a2.spec_free(who, token) == a0.spec_free(who, token) - value,
        a2.spec_reserved(who, token) == a0.spec_reserved(who, token),
        !r2.is_pending(id),
{
}

/// Law: the funds lock of an application is released exactly once. A
/// finish removes its id from the pending store, so by
/// `withdrawal_finish`'s contract — which returns `ApplicationNotFound`
/// exactly when the id is not pending, and changes nothing on an error —
/// every later finish of the same id reports not-found and neither moves
/// nor destroys anything.
pub proof fn lemma_release_exactly_once(r1: AssetRecords, r2: AssetRecords, id: u32)
    requires
        finish_records_post(r1, r2, id),
    ensures
        !r2.is_pending(id),
{
}

} // verus!
