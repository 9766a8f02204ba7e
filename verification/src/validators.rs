//! The block-producer check of the system module: a producer must stand in
//! the current validator list. The list itself, and the account lookup by
//! registered name, are collaborators of the embedding chain; the lookup is
//! a trait its users implement.

use vstd::prelude::*;
use crate::types::AccountId;

verus! {

/// Resolves a registered validator name to its account. Implemented by the
/// embedding chain's account registry.
pub trait Validator<A> {
    fn get_validator_by_name(name: &[u8]) -> Option<A>;
}

/// Whether `producer` stands in the current validator list.
pub fn is_validator(validators: &Vec<AccountId>, producer: AccountId) -> (r: bool)
    ensures
        r == validators@.contains(producer),
{
    let mut i: usize = 0;
    while i < validators.len()
        invariant
            i <= validators@.len(),
            forall|j: int| 0 <= j < i ==> validators@[j] != producer,
        decreases validators@.len() - i,
    {
        if validators[i] == producer {
            return true;
        }
        i = i + 1;
    }
    false
}

} // verus!
