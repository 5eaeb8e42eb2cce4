//! Ledger-level properties: the changes index, deduplication, reorg
//! cleanup, and the checkpoint locator's boundary behavior.

use parl_wallet::daemon::{AssetData, BlockResponse, DaemonState};
use parl_wallet::locator::locate_sync_topoheight_and_clean;
use parl_wallet::model::{EntryData, TransactionEntry, NATIVE_ASSET};
use parl_wallet::storage::Storage;

fn entry(hash: u64, topoheight: u64) -> TransactionEntry {
    TransactionEntry { hash, topoheight, entry: EntryData::Coinbase { reward: 1 } }
}

fn chain_daemon(tip: u64, pruned: u64) -> DaemonState {
    let mut blocks = Vec::new();
    let mut t = 0u64;
    while t <= tip {
        blocks.push(BlockResponse {
            hash: 1000 + t,
            miner: 9,
            miner_mainnet: true,
            miner_reward: None,
            transactions: Vec::new(),
        });
        t += 1;
    }
    DaemonState {
        topoheight: tip,
        top_block_hash: 1000 + tip,
        pruned_topoheight: pruned,
        mainnet: true,
        nonce: Some(0),
        account_assets: Vec::new(),
        registered_assets: vec![AssetData { asset: NATIVE_ASSET, decimals: 8 }],
        blocks,
        chains: Vec::new(),
        executions: Vec::new(),
    }
}

#[test]
fn changes_marker_round_trip() {
    // every marked topoheight maps to exactly the hash it was inserted
    // with, and a re-insertion overwrites it
    let mut s = Storage::new();
    s.add_topoheight_to_changes(5, 500);
    s.add_topoheight_to_changes(9, 900);
    assert_eq!(s.get_block_hash_for_topoheight(5), Some(500));
    assert_eq!(s.get_block_hash_for_topoheight(9), Some(900));
    assert_eq!(s.get_block_hash_for_topoheight(7), None);
    s.add_topoheight_to_changes(5, 501);
    assert_eq!(s.get_block_hash_for_topoheight(5), Some(501));
    assert_eq!(s.get_block_hash_for_topoheight(9), Some(900));
}

#[test]
fn highest_changes_below() {
    let mut s = Storage::new();
    s.add_topoheight_to_changes(5, 500);
    s.add_topoheight_to_changes(9, 900);
    s.add_topoheight_to_changes(12, 1200);
    assert_eq!(s.get_highest_topoheight_in_changes_below(12), 12);
    assert_eq!(s.get_highest_topoheight_in_changes_below(11), 9);
    assert_eq!(s.get_highest_topoheight_in_changes_below(5), 5);
    assert_eq!(s.get_highest_topoheight_in_changes_below(4), 0);
}

#[test]
fn transaction_dedup_gate() {
    // has_transaction is the deduplication gate: a stored hash is seen,
    // deleting it clears it
    let mut s = Storage::new();
    assert!(!s.has_transaction(42));
    s.save_transaction(entry(42, 7));
    assert!(s.has_transaction(42));
    assert_eq!(s.get_transaction(42).unwrap().topoheight, 7);
    s.delete_transaction(42);
    assert!(!s.has_transaction(42));
}

#[test]
fn reorg_cleanup_drops_entries_above() {
    // after a cleanup at r, no transaction above r remains
    let mut s = Storage::new();
    s.save_transaction(entry(1, 10));
    s.save_transaction(entry(2, 20));
    s.save_transaction(entry(3, 30));
    s.delete_transactions_above_topoheight(20);
    assert!(s.has_transaction(1));
    assert!(s.has_transaction(2));
    assert!(!s.has_transaction(3));
}

#[test]
fn delete_changes_reports_whether_any_fell() {
    let mut s = Storage::new();
    s.add_topoheight_to_changes(5, 500);
    s.add_topoheight_to_changes(9, 900);
    assert!(!s.delete_changes_above_topoheight(9));
    assert!(s.delete_changes_above_topoheight(5));
    assert!(s.has_topoheight_in_changes(5));
    assert!(!s.has_topoheight_in_changes(9));
}

#[test]
fn locator_pruned_at_tip_terminates() {
    // daemon pruned up to its tip: the locator still terminates and
    // accepts the pruned floor as the checkpoint
    let daemon = chain_daemon(60, 60);
    let mut s = Storage::new();
    s.set_synced_topoheight(50);
    s.set_top_block_hash(555); // not the daemon's hash at 50
    s.add_topoheight_to_changes(50, 555);
    let mut events = Vec::new();
    let sp = locate_sync_topoheight_and_clean(&mut s, &daemon, true, &mut events).unwrap();
    assert!(sp.sync_back);
    assert_eq!(sp.daemon_topoheight, 60);
    assert_eq!(sp.wallet_topoheight, 60);
    assert_eq!(s.get_synced_topoheight(), 60);
    assert_eq!(s.get_top_block_hash(), Some(1060));
}

#[test]
fn locator_wallet_above_daemon_rewinds_fully() {
    // wallet synced above the daemon's tip: checkpoint 0, full rewind
    let daemon = chain_daemon(100, 0);
    let mut s = Storage::new();
    s.set_synced_topoheight(200);
    s.set_top_block_hash(777);
    let mut events = Vec::new();
    let sp = locate_sync_topoheight_and_clean(&mut s, &daemon, true, &mut events).unwrap();
    assert!(sp.sync_back);
    assert_eq!(sp.wallet_topoheight, 0);
}

#[test]
fn locator_fast_path_leaves_storage_alone() {
    let daemon = chain_daemon(80, 0);
    let mut s = Storage::new();
    s.set_synced_topoheight(80);
    s.set_top_block_hash(1080);
    let mut events = Vec::new();
    let sp = locate_sync_topoheight_and_clean(&mut s, &daemon, true, &mut events).unwrap();
    assert!(!sp.sync_back);
    assert_eq!(sp.wallet_topoheight, 80);
    assert!(events.is_empty());
}

#[test]
fn locator_walks_changes_to_agreement() {
    // markers at 30 (agreeing) and 45 (stale): the checkpoint is 30 and
    // everything above it is dropped
    let daemon = chain_daemon(50, 0);
    let mut s = Storage::new();
    s.set_synced_topoheight(45);
    s.set_top_block_hash(999); // stale tip
    s.add_topoheight_to_changes(30, 1030); // agrees with the daemon
    s.add_topoheight_to_changes(45, 999); // does not
    s.save_transaction(entry(70, 45));
    s.save_transaction(entry(71, 30));
    let mut events = Vec::new();
    let sp = locate_sync_topoheight_and_clean(&mut s, &daemon, true, &mut events).unwrap();
    assert!(sp.sync_back);
    assert_eq!(sp.wallet_topoheight, 30);
    assert_eq!(s.get_synced_topoheight(), 30);
    assert_eq!(s.get_top_block_hash(), Some(1030));
    assert!(!s.has_transaction(70));
    assert!(s.has_transaction(71));
    assert!(!s.has_topoheight_in_changes(45));
    assert!(s.has_topoheight_in_changes(30));
}

#[test]
fn balances_and_unconfirmed_cache() {
    let mut s = Storage::new();
    assert!(!s.has_any_balance());
    s.set_balance_for(3, 100, 700);
    s.set_balance_for(3, 120, 701);
    let b = s.get_balance_for(3).unwrap();
    assert_eq!(b.plaintext, 120);
    assert_eq!(b.ciphertext, 701);
    assert!(s.has_any_balance());
    s.add_unconfirmed_balance_decoded(3, 702, 130);
    assert_eq!(s.get_unconfirmed_balance_decoded_for(3, 702), Some(130));
    assert_eq!(s.get_unconfirmed_balance_decoded_for(3, 703), None);
    s.delete_balances();
    assert!(!s.has_any_balance());
}
