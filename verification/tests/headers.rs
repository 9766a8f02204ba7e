use xbridge_core::header::{BlockHeader, BlockHeaderInfo, HeaderStore};
use xbridge_core::types::ChainErr;

const GENESIS: u64 = 1000;
const ORPHAN_PARENT: u64 = 9999;

fn hdr(hash: u64, prev: u64) -> BlockHeader {
    BlockHeader { hash, previous_header_hash: prev }
}

// a store on genesis (height 0) where the hash of the header at height i
// is just i, for i >= 1
fn fresh(k: u32, reserved: u32) -> HeaderStore {
    HeaderStore::new(hdr(GENESIS, ORPHAN_PARENT), 0, k, reserved)
}

fn push_chain(store: &mut HeaderStore, from: u64, to: u64) {
    for h in from..=to {
        let prev = if h == 1 { GENESIS } else { h - 1 };
        store.push_header(hdr(h, prev), true).unwrap();
    }
}

#[test]
fn six_deep_chain_confirms_the_first_header() {
    // K = 6: pushing h1..h6 on genesis makes (h1, 1) the checkpoint and
    // flips h1 to confirmed
    let mut store = fresh(6, 10);
    for h in 1..=5u64 {
        let r = store
            .push_header(hdr(h, if h == 1 { GENESIS } else { h - 1 }), true)
            .unwrap();
        // while the chain is shorter than the window, nothing above the
        // genesis confirms
        assert!(!store.block_header_for(h).unwrap().confirmed);
        if h < 5 {
            assert_eq!((r.confirmed_hash, r.confirmed_height), (GENESIS, 0));
            assert!(!store.block_header_for(GENESIS).unwrap().confirmed);
        } else {
            // at height K - 1 the walk reaches the genesis itself
            assert_eq!((r.confirmed_hash, r.confirmed_height), (GENESIS, 0));
            assert!(store.block_header_for(GENESIS).unwrap().confirmed);
        }
    }
    let r = store.push_header(hdr(6, 5), true).unwrap();
    assert_eq!((r.confirmed_hash, r.confirmed_height), (1, 1));
    assert!(store.block_header_for(1).unwrap().confirmed);
    assert!(!store.block_header_for(2).unwrap().confirmed);
}

#[test]
fn confirmations_come_in_height_order_exactly_once() {
    let mut store = fresh(3, 10);
    let mut confirmed: Vec<(u64, u64)> = Vec::new();
    for h in 1..=8u64 {
        let r = store
            .push_header(hdr(h, if h == 1 { GENESIS } else { h - 1 }), true)
            .unwrap();
        if r.confirmed_hash != GENESIS {
            confirmed.push((r.confirmed_hash, r.confirmed_height));
        }
    }
    // a chain of 8 with K = 3 confirms heights 1..=6, one per push
    assert_eq!(confirmed, vec![(1, 1), (2, 2), (3, 3), (4, 4), (5, 5), (6, 6)]);
}

#[test]
fn accepted_headers_sit_one_above_their_parent() {
    let mut store = fresh(2, 5);
    push_chain(&mut store, 1, 3);
    for h in 1..=3u64 {
        let info = store.block_header_for(h).unwrap();
        assert_eq!(info.height, h);
        let parent = info.header.previous_header_hash;
        let parent_height = store.block_header_for(parent).unwrap().height;
        assert_eq!(info.height, parent_height + 1);
    }
}

#[test]
fn unknown_parent_is_rejected() {
    let store = fresh(6, 10);
    let r = store.check_prev_and_convert(hdr(1, 777));
    assert_eq!(r.err(), Some(ChainErr::UnknownParent));
    assert_eq!(ChainErr::UnknownParent.info(), "Block parent is unknown");
}

#[test]
fn missing_best_record_is_a_store_fault() {
    let mut store = fresh(6, 10);
    store.update_best_index(777);
    let r = store.check_prev_and_convert(hdr(1, GENESIS));
    assert_eq!(r.err(), Some(ChainErr::NotFound));
    assert_eq!(
        ChainErr::NotFound.info(),
        "Not to find orphaned side chain in header collection; qed"
    );
}

#[test]
fn ancient_fork_is_rejected() {
    // K = 3, best at height 5: a candidate at height 3 would rewrite
    // history past the confirmation window (3 <= 5 - 2)
    let mut store = fresh(3, 10);
    push_chain(&mut store, 1, 5);
    let r = store.push_header(hdr(42, 2), false);
    assert_eq!(r.err(), Some(ChainErr::AncientFork));
    assert_eq!(ChainErr::AncientFork.info(), "Fork is too long to proceed");
    // one height higher the fork is still acceptable (4 > 5 - 2)
    let r = store.push_header(hdr(43, 3), false);
    assert!(r.is_ok());
    assert_eq!(store.block_header_for(43).unwrap().height, 4);
}

#[test]
fn pruning_drops_heights_outside_the_reserved_window() {
    // reserved window of 3: after pushing to height 6, heights 1..=3 are
    // gone, 4..=6 remain, and the genesis record outlives the window
    let mut store = fresh(2, 3);
    push_chain(&mut store, 1, 6);
    for h in 1..=3u64 {
        assert!(store.block_header_for(h).is_none());
    }
    for h in 4..=6u64 {
        assert!(store.block_header_for(h).is_some());
    }
    assert!(store.block_header_for(GENESIS).is_some());
    assert_eq!(store.block_hash_for(3), Vec::<u64>::new());
    assert_eq!(store.block_hash_for(4), vec![4]);
}

#[test]
fn confirmation_hands_back_the_settled_transactions() {
    // a header whose record carries settlement transactions hands them to
    // the dispatcher exactly when it confirms
    let mut store = fresh(2, 10);
    let rec = store.check_prev_and_convert(hdr(1, GENESIS)).unwrap();
    let with_txs = BlockHeaderInfo { txid_list: vec![70, 71], ..rec };
    store.accept_header(with_txs, true);
    let r = store.push_header(hdr(2, 1), true).unwrap();
    assert_eq!((r.confirmed_hash, r.confirmed_height), (1, 1));
    assert_eq!(r.settled_txids, vec![70, 71]);
    assert!(r.pruned_txids.is_empty());
}

#[test]
fn pruned_headers_hand_back_their_transactions() {
    let mut store = fresh(1, 1);
    let rec = store.check_prev_and_convert(hdr(1, GENESIS)).unwrap();
    store.accept_header(BlockHeaderInfo { txid_list: vec![80], ..rec }, true);
    let r = store.push_header(hdr(2, 1), true).unwrap();
    // with a window of one, accepting height 2 prunes height 1
    assert_eq!(r.pruned_txids, vec![80]);
    assert!(store.block_header_for(1).is_none());
}

#[test]
fn find_confirmed_block_walks_to_the_nearest_confirmed() {
    let mut store = fresh(3, 10);
    push_chain(&mut store, 1, 5);
    // heights 1..=3 are confirmed; from the tip the nearest is height 3
    let found = store.find_confirmed_block(5);
    assert_eq!(found.height, 3);
    assert!(found.confirmed);
    // from an unknown hash the search falls back to the genesis record
    let found = store.find_confirmed_block(777);
    assert_eq!(found.header.hash, GENESIS);
}

#[test]
fn exhausted_search_falls_back_to_the_genesis() {
    // accepted but never confirmed headers: the K - 1 step search from the
    // tip meets no confirmed record and must answer with the genesis, not
    // with whatever stands at the end of the walk
    let mut store = fresh(3, 10);
    for h in 1..=4u64 {
        let prev = if h == 1 { GENESIS } else { h - 1 };
        let rec = store.check_prev_and_convert(hdr(h, prev)).unwrap();
        store.accept_header(rec, true);
    }
    let found = store.find_confirmed_block(4);
    assert_eq!(found.header.hash, GENESIS);
    assert_eq!(found.height, 0);
}

#[test]
fn update_confirmed_header_marks_at_most_once() {
    let mut store = fresh(2, 10);
    push_chain(&mut store, 1, 2);
    assert!(store.block_header_for(1).unwrap().confirmed);
    // running the confirmation again for the same tip settles nothing anew
    let tip = store.block_header_for(2).unwrap().clone();
    let ((h, height), settled) = store.update_confirmed_header(&tip);
    assert_eq!((h, height), (1, 1));
    assert!(settled.is_empty());
}
