use xbridge_core::vote_weight::{Delta, IntentionProfs, Module, NominationRecord, VoteWeight};
use xbridge_core::validators::{is_validator, Validator};

struct NameBook;

impl Validator<u64> for NameBook {
    fn get_validator_by_name(name: &[u8]) -> Option<u64> {
        if name == b"alice" {
            Some(100)
        } else {
            None
        }
    }
}

#[test]
fn weight_accumulates_linearly_over_blocks() {
    // weight 100 settled at block 5, amount 10: by block 12 the record has
    // accumulated 100 + 10 * 7 = 170
    let mut who = NominationRecord {
        nomination: 10,
        last_vote_weight: 100,
        last_vote_weight_update: 5,
    };
    Module::generic_update_vote_weight(&mut who, 12);
    assert_eq!(who.last_vote_weight, 170);
    assert_eq!(who.last_vote_weight_update, 12);
    assert_eq!(who.nomination, 10);
}

#[test]
fn deltas_change_only_the_amount() {
    let mut who = IntentionProfs {
        total_nomination: 50,
        last_total_vote_weight: 7,
        last_total_vote_weight_update: 3,
    };
    Module::generic_apply_delta(&mut who, &Delta::Add(25));
    assert_eq!(who.total_nomination, 75);
    Module::generic_apply_delta(&mut who, &Delta::Sub(5));
    assert_eq!(who.total_nomination, 70);
    Module::generic_apply_delta(&mut who, &Delta::Zero);
    assert_eq!(who.total_nomination, 70);
    assert_eq!(who.last_total_vote_weight, 7);
    assert_eq!(who.last_total_vote_weight_update, 3);
}

#[test]
fn both_way_update_settles_then_moves_amounts() {
    let mut source = NominationRecord {
        nomination: 4,
        last_vote_weight: 0,
        last_vote_weight_update: 0,
    };
    let mut target = IntentionProfs {
        total_nomination: 9,
        last_total_vote_weight: 10,
        last_total_vote_weight_update: 2,
    };
    Module::update_vote_weight_both_way(&mut source, &mut target, &Delta::Add(6), 10);
    // settled first: 0 + 4 * 10 and 10 + 9 * 8, at block 10
    assert_eq!(source.last_vote_weight, 40);
    assert_eq!(target.last_total_vote_weight, 82);
    assert_eq!(source.last_vote_weight_update, 10);
    assert_eq!(target.last_total_vote_weight_update, 10);
    // then the delta lands on both amounts
    assert_eq!(source.nomination, 10);
    assert_eq!(target.total_nomination, 15);
}

#[test]
fn bare_update_leaves_amounts_alone() {
    let mut source = NominationRecord {
        nomination: 3,
        last_vote_weight: 1,
        last_vote_weight_update: 1,
    };
    let mut target = NominationRecord {
        nomination: 5,
        last_vote_weight: 2,
        last_vote_weight_update: 1,
    };
    Module::update_bare_vote_weight_both_way(&mut source, &mut target, 4);
    assert_eq!((source.nomination, target.nomination), (3, 5));
    assert_eq!(source.last_vote_weight, 1 + 3 * 3);
    assert_eq!(target.last_vote_weight, 2 + 5 * 3);
}

#[test]
fn amount_getters_follow_the_trait() {
    let who = NominationRecord {
        nomination: 8,
        last_vote_weight: 9,
        last_vote_weight_update: 2,
    };
    assert_eq!(who.amount(), 8);
    assert_eq!(who.last_acum_weight(), 9);
    assert_eq!(who.last_acum_weight_update(), 2);
}

#[test]
fn producer_must_be_a_current_validator() {
    let validators: Vec<u64> = vec![100, 200, 300];
    assert!(is_validator(&validators, 200));
    assert!(!is_validator(&validators, 400));
    assert!(!is_validator(&Vec::new(), 100));
    let by_name = NameBook::get_validator_by_name(b"alice");
    assert_eq!(by_name, Some(100));
    assert!(is_validator(&validators, by_name.unwrap()));
    assert_eq!(NameBook::get_validator_by_name(b"mallory"), None);
}
