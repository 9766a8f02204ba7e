//! Vote-weight settlement: the accumulated-weight bookkeeping that staking
//! records carry. A record accumulates weight linearly in the blocks that
//! pass over its amount; on every change the accumulated weight is settled
//! up to the current block before the amount moves.
//!
//! The current block number is the embedding chain's and is handed in by
//! the caller.

use vstd::prelude::*;

verus! {

/// A change to a record's amount.
#[derive(Clone, Copy, PartialEq, Eq, Structural, Debug)]
pub enum Delta {
    Add(u64),
    Sub(u64),
    Zero,
}

/// A staking record that accumulates vote weight: an amount, the weight
/// settled so far, and the block that settlement reached.
pub trait VoteWeight: Sized {
    spec fn spec_amount(&self) -> u64;

    spec fn spec_last_acum_weight(&self) -> u64;

    spec fn spec_last_acum_weight_update(&self) -> u64;

    fn amount(&self) -> (r: u64)
        ensures
            r == self.spec_amount(),
    ;

    fn set_amount(&mut self, new: u64)
        ensures
            final(self).spec_amount() == new,
            final(self).spec_last_acum_weight() == old(self).spec_last_acum_weight(),
            final(self).spec_last_acum_weight_update()
                == old(self).spec_last_acum_weight_update(),
    ;

    fn last_acum_weight(&self) -> (r: u64)
        ensures
            r == self.spec_last_acum_weight(),
    ;

    fn set_last_acum_weight(&mut self, latest_vote_weight: u64)
        ensures
            final(self).spec_last_acum_weight() == latest_vote_weight,
            final(self).spec_amount() == old(self).spec_amount(),
            final(self).spec_last_acum_weight_update()
                == old(self).spec_last_acum_weight_update(),
    ;

    fn last_acum_weight_update(&self) -> (r: u64)
        ensures
            r == self.spec_last_acum_weight_update(),
    ;

    fn set_last_acum_weight_update(&mut self, current_block: u64)
        ensures
            final(self).spec_last_acum_weight_update() == current_block,
            final(self).spec_amount() == old(self).spec_amount(),
            final(self).spec_last_acum_weight() == old(self).spec_last_acum_weight(),
    ;
}

/// The weight a record has accumulated by `current_block`: the settled
/// weight plus its amount for every block since the last settlement.
pub open spec fn spec_latest_acum_weight<V: VoteWeight>(who: V, current_block: u64) -> int {
    who.spec_last_acum_weight() + who.spec_amount() * (current_block
        - who.spec_last_acum_weight_update())
}

/// The amount after a delta is applied.
pub open spec fn spec_apply_delta(amount: u64, delta: Delta) -> int {
    match delta {
        Delta::Add(x) => amount + x,
        Delta::Sub(x) => amount - x,
        Delta::Zero => amount as int,
    }
}

/// A record's settlement is current and fits the 64-bit weight counter: a
/// machine limit of the accumulation.
pub open spec fn weight_in_range<V: VoteWeight>(who: V, current_block: u64) -> bool {
    &&& who.spec_last_acum_weight_update() <= current_block
    &&& spec_latest_acum_weight(who, current_block) <= u64::MAX
}

/// The vote-weight operations, grouped as the staking module offers them.
pub struct Module;

impl Module {
    /// Settles a record's accumulated weight up to the current block: the
    /// settled weight becomes the accumulated one and settlement time moves to
    /// now; the amount does not change.
    pub fn generic_update_vote_weight<V: VoteWeight>(who: &mut V, current_block: u64)
        requires
            weight_in_range(*old(who), current_block),
        ensures
            final(who).spec_last_acum_weight()
                == spec_latest_acum_weight(*old(who), current_block),
            final(who).spec_last_acum_weight_update() == current_block,
            final(who).spec_amount() == old(who).spec_amount(),
    {
        let latest = who.last_acum_weight()
            + who.amount() * (current_block - who.last_acum_weight_update());
        who.set_last_acum_weight(latest);
        who.set_last_acum_weight_update(current_block);
    }

    /// Applies a delta to a record's amount, leaving its settled weight alone.
    /// The bounds are machine limits of the 64-bit amount.
    pub fn generic_apply_delta<V: VoteWeight>(who: &mut V, delta: &Delta)
        requires
            match *delta {
                Delta::Add(x) => old(who).spec_amount() + x <= u64::MAX,
                Delta::Sub(x) => x <= old(who).spec_amount(),
                Delta::Zero => true,
            },
        ensures
            final(who).spec_amount() == spec_apply_delta(old(who).spec_amount(), *delta),
            final(who).spec_last_acum_weight() == old(who).spec_last_acum_weight(),
            final(who).spec_last_acum_weight_update()
                == old(who).spec_last_acum_weight_update(),
    {
        match *delta {
            Delta::Add(x) => {
                let a = who.amount();
                who.set_amount(a + x);
            },
            Delta::Sub(x) => {
                let a = who.amount();
                who.set_amount(a - x);
            },
            Delta::Zero => {},
        }
    }

    /// Settles both sides of a transfer up to the current block without
    /// touching the amounts; the amount change itself is the asset ledger's.
    pub fn update_bare_vote_weight_both_way<U: VoteWeight, V: VoteWeight>(
        source: &mut U,
        target: &mut V,
        current_block: u64,
    )
        requires
            weight_in_range(*old(source), current_block),
            weight_in_range(*old(target), current_block),
        ensures
            final(source).spec_last_acum_weight()
                == spec_latest_acum_weight(*old(source), current_block),
            final(source).spec_last_acum_weight_update() == current_block,
            final(source).spec_amount() == old(source).spec_amount(),
            final(target).spec_last_acum_weight()
                == spec_latest_acum_weight(*old(target), current_block),
            final(target).spec_last_acum_weight_update() == current_block,
            final(target).spec_amount() == old(target).spec_amount(),
    {
        Module::generic_update_vote_weight(source, current_block);
        Module::generic_update_vote_weight(target, current_block);
    }

    /// Settles both sides of a nomination change up to the current block, then
    /// applies the delta to both amounts.
    pub fn update_vote_weight_both_way<U: VoteWeight, V: VoteWeight>(
        source: &mut U,
        target: &mut V,
        delta: &Delta,
        current_block: u64,
    )
        requires
            weight_in_range(*old(source), current_block),
            weight_in_range(*old(target), current_block),
            match *delta {
                Delta::Add(x) => old(source).spec_amount() + x <= u64::MAX
                    && old(target).spec_amount() + x <= u64::MAX,
                Delta::Sub(x) => x <= old(source).spec_amount()
                    && x <= old(target).spec_amount(),
                Delta::Zero => true,
            },
        ensures
            final(source).spec_last_acum_weight()
                == spec_latest_acum_weight(*old(source), current_block),
            final(source).spec_last_acum_weight_update() == current_block,
            final(source).spec_amount()
                == spec_apply_delta(old(source).spec_amount(), *delta),
            final(target).spec_last_acum_weight()
                == spec_latest_acum_weight(*old(target), current_block),
            final(target).spec_last_acum_weight_update() == current_block,
            final(target).spec_amount()
                == spec_apply_delta(old(target).spec_amount(), *delta),
    {
        Module::generic_update_vote_weight(source, current_block);
        Module::generic_update_vote_weight(target, current_block);
        Module::generic_apply_delta(source, delta);
        Module::generic_apply_delta(target, delta);
    }
}

/// The weight state of one intention (validator candidate) over all its
/// nominations.
pub struct IntentionProfs {
    pub total_nomination: u64,
    pub last_total_vote_weight: u64,
    pub last_total_vote_weight_update: u64,
}

impl VoteWeight for IntentionProfs {
    open spec fn spec_amount(&self) -> u64 {
        self.total_nomination
    }

    open spec fn spec_last_acum_weight(&self) -> u64 {
        self.last_total_vote_weight
    }

    open spec fn spec_last_acum_weight_update(&self) -> u64 {
        self.last_total_vote_weight_update
    }

    fn amount(&self) -> u64 {
        self.total_nomination
    }

    fn set_amount(&mut self, new: u64) {
        self.total_nomination = new;
    }

    fn last_acum_weight(&self) -> u64 {
        self.last_total_vote_weight
    }

    fn set_last_acum_weight(&mut self, latest_vote_weight: u64) {
        self.last_total_vote_weight = latest_vote_weight;
    }

    fn last_acum_weight_update(&self) -> u64 {
        self.last_total_vote_weight_update
    }

    fn set_last_acum_weight_update(&mut self, current_block: u64) {
        self.last_total_vote_weight_update = current_block;
    }
}

/// The weight state of one nominator's stake on one intention.
pub struct NominationRecord {
    pub nomination: u64,
    pub last_vote_weight: u64,
    pub last_vote_weight_update: u64,
}

impl VoteWeight for NominationRecord {
    open spec fn spec_amount(&self) -> u64 {
        self.nomination
    }

    open spec fn spec_last_acum_weight(&self) -> u64 {
        self.last_vote_weight
    }

    open spec fn spec_last_acum_weight_update(&self) -> u64 {
        self.last_vote_weight_update
    }

    fn amount(&self) -> u64 {
        self.nomination
    }

    fn set_amount(&mut self, new: u64) {
        self.nomination = new;
    }

    fn last_acum_weight(&self) -> u64 {
        self.last_vote_weight
    }

    fn set_last_acum_weight(&mut self, latest_vote_weight: u64) {
        self.last_vote_weight = latest_vote_weight;
    }

    fn last_acum_weight_update(&self) -> u64 {
        self.last_vote_weight_update
    }

    fn set_last_acum_weight_update(&mut self, current_block: u64) {
        self.last_vote_weight_update = current_block;
    }
}

} // verus!
