use xbridge_core::assets::XAssets;
use xbridge_core::records::{deposit, AssetRecords};
use xbridge_core::process::{withdraw, withdrawal_limit};
use xbridge_core::types::{Chain, LedgerErr};

const BTC: u64 = 1;
const ETH: u64 = 2;
const PCX: u64 = 0;
const ALICE: u64 = 100;
const BOB: u64 = 101;

fn setup() -> (AssetRecords, XAssets) {
    let mut assets = XAssets::new();
    assert!(assets.register_asset(PCX, Chain::ChainX, 0));
    assert!(assets.register_asset(BTC, Chain::Bitcoin, 40));
    assert!(assets.register_asset(ETH, Chain::Ethereum, 0));
    (AssetRecords::new(), assets)
}

#[test]
fn submit_locks_and_finish_burns() {
    // applicant free balance 100; a full withdrawal locks it all, and a
    // successful finish destroys the locked amount
    let (mut records, mut assets) = setup();
    deposit(&mut assets, ALICE, BTC, 100).unwrap();
    assert_eq!(assets.free_balance(ALICE, BTC), 100);
    assert_eq!(assets.total_issuance(BTC), 100);

    let id = records
        .withdrawal(&mut assets, ALICE, BTC, 100, b"addr".to_vec(), b"memo".to_vec(), 7)
        .unwrap();
    assert_eq!(assets.free_balance(ALICE, BTC), 0);
    assert_eq!(assets.reserved_withdrawal_balance(ALICE, BTC), 100);
    assert_eq!(assets.total_issuance(BTC), 100);

    records.withdrawal_finish(&mut assets, id, true).unwrap();
    assert_eq!(assets.free_balance(ALICE, BTC), 0);
    assert_eq!(assets.reserved_withdrawal_balance(ALICE, BTC), 0);
    assert_eq!(assets.total_issuance(BTC), 0);

    // the burn happened exactly once: a second finish finds nothing and
    // destroys nothing further
    assert_eq!(
        records.withdrawal_finish(&mut assets, id, true),
        Err(LedgerErr::ApplicationNotFound)
    );
    assert_eq!(assets.total_issuance(BTC), 0);
}

#[test]
fn failed_finish_restores_free_balance() {
    let (mut records, mut assets) = setup();
    deposit(&mut assets, ALICE, BTC, 100).unwrap();
    let id = records
        .withdrawal(&mut assets, ALICE, BTC, 60, b"addr".to_vec(), Vec::new(), 0)
        .unwrap();
    assert_eq!(assets.free_balance(ALICE, BTC), 40);
    assert_eq!(assets.reserved_withdrawal_balance(ALICE, BTC), 60);

    records.withdrawal_finish(&mut assets, id, false).unwrap();
    assert_eq!(assets.free_balance(ALICE, BTC), 100);
    assert_eq!(assets.reserved_withdrawal_balance(ALICE, BTC), 0);
    assert_eq!(assets.total_issuance(BTC), 100);

    // the release happened exactly once
    assert_eq!(
        records.withdrawal_finish(&mut assets, id, false),
        Err(LedgerErr::ApplicationNotFound)
    );
}

#[test]
fn finish_first_of_two_leaves_second_linked() {
    // submit A then B; finish A; the partition holds exactly B, at both ends
    let (mut records, mut assets) = setup();
    deposit(&mut assets, ALICE, BTC, 100).unwrap();
    let a = records
        .withdrawal(&mut assets, ALICE, BTC, 10, b"a".to_vec(), Vec::new(), 1)
        .unwrap();
    let b = records
        .withdrawal(&mut assets, ALICE, BTC, 20, b"b".to_vec(), Vec::new(), 2)
        .unwrap();
    assert_eq!((a, b), (0, 1));

    records.withdrawal_finish(&mut assets, a, false).unwrap();

    let apps = records.withdrawal_applications(Chain::Bitcoin);
    assert_eq!(apps.len(), 1);
    assert_eq!(apps[0].id, b);
    assert_eq!(apps[0].balance, 20);
    assert_eq!(apps[0].addr, b"b".to_vec());
    assert_eq!(records.application_mheader(Chain::Bitcoin), Some(b));
    assert_eq!(records.application_mtail(Chain::Bitcoin), Some(b));
}

#[test]
fn traversal_is_fifo_and_counts_match() {
    let (mut records, mut assets) = setup();
    deposit(&mut assets, ALICE, BTC, 100).unwrap();
    deposit(&mut assets, BOB, BTC, 100).unwrap();
    let a = records
        .withdrawal(&mut assets, ALICE, BTC, 5, b"a".to_vec(), Vec::new(), 1)
        .unwrap();
    let b = records
        .withdrawal(&mut assets, BOB, BTC, 6, b"b".to_vec(), Vec::new(), 2)
        .unwrap();
    let c = records
        .withdrawal(&mut assets, ALICE, BTC, 7, b"c".to_vec(), Vec::new(), 3)
        .unwrap();
    // three submissions, no finish: three pending, oldest first
    assert_eq!(records.withdrawal_application_numbers(Chain::Bitcoin, 10), vec![a, b, c]);
    // a finish in the middle: two pending, order kept
    records.withdrawal_finish(&mut assets, b, false).unwrap();
    assert_eq!(records.withdrawal_application_numbers(Chain::Bitcoin, 10), vec![a, c]);
    // the cutoff stops the traversal early
    assert_eq!(records.withdrawal_application_numbers(Chain::Bitcoin, 1), vec![a]);
    assert_eq!(records.withdrawal_application_numbers(Chain::Bitcoin, 0), Vec::<u32>::new());
    // another partition is empty, not an error
    assert_eq!(
        records.withdrawal_application_numbers(Chain::Ethereum, 10),
        Vec::<u32>::new()
    );
}

#[test]
fn withdrawal_error_cases() {
    let (mut records, mut assets) = setup();
    deposit(&mut assets, ALICE, BTC, 100).unwrap();
    // the embedding chain's own token cannot leave
    assert_eq!(
        records.withdrawal(&mut assets, ALICE, PCX, 10, b"a".to_vec(), Vec::new(), 0),
        Err(LedgerErr::TokenNotWithdrawable)
    );
    // an unregistered token cannot leave
    assert_eq!(
        records.withdrawal(&mut assets, ALICE, 99, 10, b"a".to_vec(), Vec::new(), 0),
        Err(LedgerErr::TokenNotWithdrawable)
    );
    // more than the free balance cannot leave
    assert_eq!(
        records.withdrawal(&mut assets, ALICE, BTC, 101, b"a".to_vec(), Vec::new(), 0),
        Err(LedgerErr::InsufficientFreeBalance)
    );
    // nothing was locked by the rejected calls
    assert_eq!(assets.free_balance(ALICE, BTC), 100);
    assert_eq!(assets.reserved_withdrawal_balance(ALICE, BTC), 0);
}

#[test]
fn withdraw_checks_address_and_minimum() {
    let (mut records, mut assets) = setup();
    deposit(&mut assets, ALICE, BTC, 1000).unwrap();
    // the configured fee of 40 asks for at least 60
    assert_eq!(
        withdrawal_limit(&assets, BTC).map(|l| (l.minimal_withdrawal, l.fee)),
        Some((60, 40))
    );
    assert_eq!(withdrawal_limit(&assets, ETH), None);
    // a rejected address
    let r = withdraw(&mut records, &mut assets, ALICE, BTC, 100, b"bad".to_vec(),
        Vec::new(), 0, false);
    assert_eq!(r, Err(LedgerErr::AddressInvalid));
    // below the minimum
    let r = withdraw(&mut records, &mut assets, ALICE, BTC, 59, b"ok".to_vec(),
        Vec::new(), 0, true);
    assert_eq!(r, Err(LedgerErr::BelowMinimum));
    // a token without a limit cannot leave through the dispatch entry
    let r = withdraw(&mut records, &mut assets, ALICE, ETH, 100, b"ok".to_vec(),
        Vec::new(), 0, true);
    assert_eq!(r, Err(LedgerErr::TokenNotWithdrawable));
    // at the minimum the withdrawal goes through
    let id = withdraw(&mut records, &mut assets, ALICE, BTC, 60, b"ok".to_vec(),
        Vec::new(), 0, true)
        .unwrap();
    assert_eq!(assets.reserved_withdrawal_balance(ALICE, BTC), 60);
    assert!(records.contains_application(id));
}

#[test]
fn revoke_is_restricted_to_the_applicant() {
    let (mut records, mut assets) = setup();
    deposit(&mut assets, ALICE, BTC, 100).unwrap();
    let id = records
        .withdrawal(&mut assets, ALICE, BTC, 30, b"a".to_vec(), Vec::new(), 0)
        .unwrap();
    assert_eq!(
        records.withdrawal_revoke(&mut assets, BOB, id),
        Err(LedgerErr::ApplicationNotFound)
    );
    assert!(records.contains_application(id));
    records.withdrawal_revoke(&mut assets, ALICE, id).unwrap();
    assert!(!records.contains_application(id));
    assert_eq!(assets.free_balance(ALICE, BTC), 100);
}

#[test]
fn serial_number_wraps_around() {
    let (_, mut assets) = setup();
    deposit(&mut assets, ALICE, BTC, 100).unwrap();
    let mut records = AssetRecords::new_with_serial(u32::MAX);
    let id = records
        .withdrawal(&mut assets, ALICE, BTC, 10, b"a".to_vec(), Vec::new(), 0)
        .unwrap();
    assert_eq!(id, u32::MAX);
    assert_eq!(records.number(), 0);
    let id2 = records
        .withdrawal(&mut assets, ALICE, BTC, 10, b"a".to_vec(), Vec::new(), 0)
        .unwrap();
    assert_eq!(id2, 0);
    assert_eq!(
        records.withdrawal_application_numbers(Chain::Bitcoin, 10),
        vec![u32::MAX, 0]
    );
}

#[test]
fn deposit_rejects_the_native_token() {
    let (_, mut assets) = setup();
    assert_eq!(deposit(&mut assets, ALICE, PCX, 10), Err(LedgerErr::TokenNotWithdrawable));
    assert_eq!(deposit(&mut assets, ALICE, 99, 10), Err(LedgerErr::TokenNotWithdrawable));
    assert_eq!(assets.total_issuance(PCX), 0);
}

#[test]
fn partitions_are_independent() {
    let (mut records, mut assets) = setup();
    deposit(&mut assets, ALICE, BTC, 100).unwrap();
    deposit(&mut assets, ALICE, ETH, 100).unwrap();
    let a = records
        .withdrawal(&mut assets, ALICE, BTC, 10, b"a".to_vec(), Vec::new(), 0)
        .unwrap();
    let b = records
        .withdrawal(&mut assets, ALICE, ETH, 20, b"b".to_vec(), Vec::new(), 0)
        .unwrap();
    assert_eq!(records.withdrawal_application_numbers(Chain::Bitcoin, 10), vec![a]);
    assert_eq!(records.withdrawal_application_numbers(Chain::Ethereum, 10), vec![b]);
    records.withdrawal_finish(&mut assets, a, true).unwrap();
    assert_eq!(
        records.withdrawal_application_numbers(Chain::Bitcoin, 10),
        Vec::<u32>::new()
    );
    assert_eq!(records.withdrawal_application_numbers(Chain::Ethereum, 10), vec![b]);
}
