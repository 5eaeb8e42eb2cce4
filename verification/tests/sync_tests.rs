//! End-to-end scenarios for the sync core: a fresh wallet, mined blocks,
//! incoming and outgoing transfers, reorgs, orphans, and replayed events.

use parl_wallet::daemon::{AssetChain, AssetData, BalanceVersion, BlockResponse, DaemonState,
    RpcTransaction, RpcTransactionType, RpcTransfer, TxExecution};
use parl_wallet::model::{EntryData, Event, NetworkError, NATIVE_ASSET};
use parl_wallet::storage::Storage;
use parl_wallet::sync::{handle_block_ordered, handle_transaction_orphaned, sync, NewBlockEvent};

const WALLET: u64 = 7;
const OTHER: u64 = 8;

fn empty_block(hash: u64) -> BlockResponse {
    BlockResponse {
        hash,
        miner: OTHER,
        miner_mainnet: true,
        miner_reward: None,
        transactions: Vec::new(),
    }
}

/// A daemon whose block at topoheight `t` has hash `1000 + t`, with a
/// registered native asset and a wallet nonce of 0.
fn base_daemon(tip: u64) -> DaemonState {
    let mut blocks = Vec::new();
    let mut t = 0u64;
    while t <= tip {
        blocks.push(empty_block(1000 + t));
        t += 1;
    }
    DaemonState {
        topoheight: tip,
        top_block_hash: 1000 + tip,
        pruned_topoheight: 0,
        mainnet: true,
        nonce: Some(0),
        account_assets: Vec::new(),
        registered_assets: vec![AssetData { asset: NATIVE_ASSET, decimals: 8 }],
        blocks,
        chains: Vec::new(),
        executions: Vec::new(),
    }
}

fn native_chain(topoheight: u64, ciphertext: u64, plaintext: u64) -> AssetChain {
    AssetChain {
        asset: NATIVE_ASSET,
        versions: vec![BalanceVersion {
            topoheight,
            ciphertext,
            plaintext,
            previous_topoheight: None,
        }],
    }
}

fn count_new_tx(events: &[Event], hash: u64) -> usize {
    events
        .iter()
        .filter(|e| matches!(e, Event::NewTransaction { hash: h } if *h == hash))
        .count()
}

#[test]
fn fresh_wallet_empty_history() {
    // Fresh wallet, empty chain history: after one sync the head pointer
    // is the daemon's tip and nothing else was stored.
    let daemon = base_daemon(100);
    let mut storage = Storage::new();
    let mut events = Vec::new();
    let r = sync(&mut storage, &daemon, WALLET, true, None, &mut events);
    assert!(r.is_ok());
    assert_eq!(storage.get_synced_topoheight(), 100);
    assert_eq!(storage.get_top_block_hash(), Some(1100));
    assert!(storage.get_assets().is_empty());
    assert!(events.contains(&Event::NewTopoHeight { topoheight: 100 }));
    assert_eq!(*events.last().unwrap(), Event::NewTopoHeight { topoheight: 100 });
}

#[test]
fn mined_block_yields_coinbase() {
    // A pushed block mined by the wallet with a reward becomes one
    // Coinbase entry and marks the native asset as changed.
    let mut daemon = base_daemon(101);
    let block_hash = 1101;
    daemon.blocks[101].miner = WALLET;
    daemon.blocks[101].miner_reward = Some(5000);
    daemon.chains = vec![native_chain(101, 900, 5000)];
    let mut storage = Storage::new();
    let mut events = Vec::new();
    let event = NewBlockEvent { topoheight: Some(101), block: BlockResponse {
        hash: block_hash,
        miner: WALLET,
        miner_mainnet: true,
        miner_reward: Some(5000),
        transactions: Vec::new(),
    } };
    let r = sync(&mut storage, &daemon, WALLET, true, Some(&event), &mut events);
    assert!(r.is_ok());
    let entry = storage.get_transaction(block_hash).expect("coinbase entry stored");
    assert_eq!(entry.topoheight, 101);
    assert_eq!(entry.entry, EntryData::Coinbase { reward: 5000 });
    assert_eq!(count_new_tx(&events, block_hash), 1);
    assert!(events.contains(&Event::NewTopoHeight { topoheight: 101 }));
    assert_eq!(storage.get_synced_topoheight(), 101);
    assert!(storage.has_topoheight_in_changes(101));
}

fn transfer_to_wallet(amount: u64) -> RpcTransfer {
    RpcTransfer {
        destination: WALLET,
        asset: NATIVE_ASSET,
        commitment_valid: true,
        sender_handle_valid: true,
        receiver_handle_valid: true,
        amount,
        extra_data: None,
    }
}

#[test]
fn incoming_transfer() {
    // A Transfers tx destined to the wallet becomes an Incoming entry with
    // the decrypted amount; the balance changes; the nonce does not.
    let mut daemon = base_daemon(102);
    let tx_hash = 77;
    let block_hash = 1102;
    daemon.blocks[102].transactions.push(RpcTransaction {
        hash: tx_hash,
        source: OTHER,
        fee: 1,
        nonce: 3,
        data: RpcTransactionType::Transfers { transfers: vec![transfer_to_wallet(42)] },
    });
    daemon.chains = vec![native_chain(102, 901, 42)];
    daemon.executions = vec![TxExecution { tx_hash, block_hash, topoheight: 102 }];
    let mut storage = Storage::new();
    storage.set_nonce(0);
    let mut events = Vec::new();
    let block = BlockResponse {
        hash: block_hash,
        miner: OTHER,
        miner_mainnet: true,
        miner_reward: None,
        transactions: vec![RpcTransaction {
            hash: tx_hash,
            source: OTHER,
            fee: 1,
            nonce: 3,
            data: RpcTransactionType::Transfers { transfers: vec![transfer_to_wallet(42)] },
        }],
    };
    let event = NewBlockEvent { topoheight: Some(102), block };
    let r = sync(&mut storage, &daemon, WALLET, true, Some(&event), &mut events);
    assert!(r.is_ok());
    let entry = storage.get_transaction(tx_hash).expect("incoming entry stored");
    match &entry.entry {
        EntryData::Incoming { from, transfers } => {
            assert_eq!(*from, OTHER);
            assert_eq!(transfers.len(), 1);
            assert_eq!(transfers[0].amount, 42);
            assert_eq!(transfers[0].asset, NATIVE_ASSET);
        },
        other => panic!("expected incoming entry, got {:?}", other),
    }
    assert!(events.contains(&Event::BalanceChanged { asset: NATIVE_ASSET, balance: 42 }));
    assert_eq!(storage.get_nonce(), Some(0));
    let bal = storage.get_balance_for(NATIVE_ASSET).expect("balance stored");
    assert_eq!(bal.plaintext, 42);
    assert_eq!(bal.ciphertext, 901);
}

#[test]
fn outgoing_transfer_advances_nonce() {
    // Wallet stored nonce 7; an owner-sourced tx with nonce 7 advances the
    // stored nonce to 8 and stores an Outgoing entry.
    let mut daemon = base_daemon(103);
    let tx_hash = 78;
    let block_hash = 1103;
    let mk_tx = || RpcTransaction {
        hash: tx_hash,
        source: WALLET,
        fee: 25,
        nonce: 7,
        data: RpcTransactionType::Transfers { transfers: vec![RpcTransfer {
            destination: OTHER,
            asset: NATIVE_ASSET,
            commitment_valid: true,
            sender_handle_valid: true,
            receiver_handle_valid: true,
            amount: 10,
            extra_data: Some(4242),
        }] },
    };
    daemon.blocks[103].transactions.push(mk_tx());
    daemon.chains = vec![native_chain(103, 902, 990)];
    daemon.executions = vec![TxExecution { tx_hash, block_hash, topoheight: 103 }];
    daemon.nonce = Some(8);
    let mut storage = Storage::new();
    storage.set_nonce(7);
    let mut events = Vec::new();
    let event = NewBlockEvent { topoheight: Some(103), block: BlockResponse {
        hash: block_hash,
        miner: OTHER,
        miner_mainnet: true,
        miner_reward: None,
        transactions: vec![mk_tx()],
    } };
    let r = sync(&mut storage, &daemon, WALLET, true, Some(&event), &mut events);
    assert!(r.is_ok());
    assert_eq!(storage.get_nonce(), Some(8));
    let entry = storage.get_transaction(tx_hash).expect("outgoing entry stored");
    match &entry.entry {
        EntryData::Outgoing { transfers, fee, nonce } => {
            assert_eq!(transfers.len(), 1);
            assert_eq!(transfers[0].destination, OTHER);
            assert_eq!(transfers[0].amount, 10);
            assert_eq!(transfers[0].extra_data, Some(4242));
            assert_eq!(*fee, 25);
            assert_eq!(*nonce, 7);
        },
        other => panic!("expected outgoing entry, got {:?}", other),
    }
    assert!(events.contains(&Event::BalanceChanged { asset: NATIVE_ASSET, balance: 990 }));
}

#[test]
fn dropped_transfer_keeps_siblings() {
    // A transfer whose commitment fails to decompress is dropped; its
    // sibling in the same transaction is kept.
    let mut daemon = base_daemon(104);
    let tx_hash = 79;
    let block_hash = 1104;
    let mut bad = transfer_to_wallet(5);
    bad.commitment_valid = false;
    let good = transfer_to_wallet(6);
    daemon.blocks[104].transactions.push(RpcTransaction {
        hash: tx_hash,
        source: OTHER,
        fee: 1,
        nonce: 0,
        data: RpcTransactionType::Transfers { transfers: vec![bad, good] },
    });
    daemon.chains = vec![native_chain(104, 903, 6)];
    daemon.executions = vec![TxExecution { tx_hash, block_hash, topoheight: 104 }];
    let mut storage = Storage::new();
    storage.set_nonce(0);
    let mut events = Vec::new();
    let mut bad2 = transfer_to_wallet(5);
    bad2.commitment_valid = false;
    let event = NewBlockEvent { topoheight: Some(104), block: BlockResponse {
        hash: block_hash,
        miner: OTHER,
        miner_mainnet: true,
        miner_reward: None,
        transactions: vec![RpcTransaction {
            hash: tx_hash,
            source: OTHER,
            fee: 1,
            nonce: 0,
            data: RpcTransactionType::Transfers { transfers: vec![bad2, transfer_to_wallet(6)] },
        }],
    } };
    let r = sync(&mut storage, &daemon, WALLET, true, Some(&event), &mut events);
    assert!(r.is_ok());
    let entry = storage.get_transaction(tx_hash).expect("entry stored");
    match &entry.entry {
        EntryData::Incoming { transfers, .. } => {
            assert_eq!(transfers.len(), 1);
            assert_eq!(transfers[0].amount, 6);
        },
        other => panic!("expected incoming entry, got {:?}", other),
    }
}

#[test]
fn dag_reorg_rewinds() {
    // Wallet at synced 150 with a marker at 148 whose hash differs from
    // the newly ordered block: markers and transaction entries above 147
    // go, the head pointer drops to 148.
    let daemon = base_daemon(150);
    let mut storage = Storage::new();
    storage.set_synced_topoheight(150);
    storage.set_top_block_hash(555); // an abandoned fork's tip
    storage.add_topoheight_to_changes(148, 666); // stored hash differs
    storage.add_topoheight_to_changes(150, 555);
    storage.save_transaction(parl_wallet::model::TransactionEntry {
        hash: 90,
        topoheight: 150,
        entry: EntryData::Coinbase { reward: 1 },
    });
    storage.save_transaction(parl_wallet::model::TransactionEntry {
        hash: 91,
        topoheight: 140,
        entry: EntryData::Coinbase { reward: 1 },
    });
    let mut events = Vec::new();
    let r = handle_block_ordered(
        &mut storage,
        &daemon,
        WALLET,
        true,
        148,
        daemon.blocks[148].hash,
        &mut events,
    );
    assert!(r.is_ok());
    assert!(!storage.has_topoheight_in_changes(150));
    assert_eq!(storage.get_synced_topoheight(), 148);
    assert_eq!(storage.get_top_block_hash(), Some(1148));
    // the entry above the reorg point is gone; the older one survives
    assert!(!storage.has_transaction(90));
    assert!(storage.has_transaction(91));
}

#[test]
fn orphaned_transaction_removed() {
    // An orphaned transaction leaves storage and clears a matching tx
    // cache entry.
    let mut storage = Storage::new();
    storage.save_transaction(parl_wallet::model::TransactionEntry {
        hash: 42,
        topoheight: 5,
        entry: EntryData::Coinbase { reward: 1 },
    });
    storage.set_tx_cache(42);
    handle_transaction_orphaned(&mut storage, 42);
    assert!(!storage.has_transaction(42));
    assert_eq!(storage.get_tx_cache(), None);

    // an unrelated cache entry stays
    storage.set_tx_cache(43);
    handle_transaction_orphaned(&mut storage, 42);
    assert_eq!(storage.get_tx_cache(), Some(43));
}

#[test]
fn sync_twice_is_noop() {
    // A second sync against an unchanged daemon changes nothing but
    // appends one NewTopoHeight event.
    let mut daemon = base_daemon(100);
    daemon.account_assets = vec![NATIVE_ASSET];
    daemon.chains = vec![native_chain(90, 800, 111)];
    let mut storage = Storage::new();
    let mut events = Vec::new();
    sync(&mut storage, &daemon, WALLET, true, None, &mut events).unwrap();
    let synced = storage.get_synced_topoheight();
    let top = storage.get_top_block_hash();
    let nonce = storage.get_nonce();
    let bal = storage.get_balance_for(NATIVE_ASSET);
    let assets = storage.get_assets();
    let n_events = events.len();
    sync(&mut storage, &daemon, WALLET, true, None, &mut events).unwrap();
    assert_eq!(storage.get_synced_topoheight(), synced);
    assert_eq!(storage.get_top_block_hash(), top);
    assert_eq!(storage.get_nonce(), nonce);
    assert_eq!(storage.get_balance_for(NATIVE_ASSET), bal);
    assert_eq!(storage.get_assets(), assets);
    assert_eq!(events.len(), n_events + 1);
    assert_eq!(*events.last().unwrap(), Event::NewTopoHeight { topoheight: 100 });
}

#[test]
fn replayed_block_event_no_duplicates() {
    // Replaying a new_block event whose block was already processed causes
    // no duplicate entry and no duplicate NewTransaction event.
    let mut daemon = base_daemon(101);
    let block_hash = 1101;
    daemon.blocks[101].miner = WALLET;
    daemon.blocks[101].miner_reward = Some(5000);
    daemon.chains = vec![native_chain(101, 900, 5000)];
    let mut storage = Storage::new();
    let mut events = Vec::new();
    let mk = || NewBlockEvent { topoheight: Some(101), block: BlockResponse {
        hash: block_hash,
        miner: WALLET,
        miner_mainnet: true,
        miner_reward: Some(5000),
        transactions: Vec::new(),
    } };
    let e1 = mk();
    sync(&mut storage, &daemon, WALLET, true, Some(&e1), &mut events).unwrap();
    let e2 = mk();
    sync(&mut storage, &daemon, WALLET, true, Some(&e2), &mut events).unwrap();
    assert_eq!(count_new_tx(&events, block_hash), 1);
}

#[test]
fn push_then_pull_stores_once() {
    // The same block processed via push (new_block) and pull (the walker,
    // on a later full sync) yields one persisted entry.
    let mut daemon = base_daemon(102);
    let tx_hash = 77;
    let block_hash = 1102;
    daemon.blocks[102].transactions.push(RpcTransaction {
        hash: tx_hash,
        source: OTHER,
        fee: 1,
        nonce: 3,
        data: RpcTransactionType::Transfers { transfers: vec![transfer_to_wallet(42)] },
    });
    daemon.account_assets = vec![NATIVE_ASSET];
    daemon.chains = vec![native_chain(102, 901, 42)];
    daemon.executions = vec![TxExecution { tx_hash, block_hash, topoheight: 102 }];
    let mut storage = Storage::new();
    storage.set_nonce(0);
    let mut events = Vec::new();
    let event = NewBlockEvent { topoheight: Some(102), block: BlockResponse {
        hash: block_hash,
        miner: OTHER,
        miner_mainnet: true,
        miner_reward: None,
        transactions: vec![RpcTransaction {
            hash: tx_hash,
            source: OTHER,
            fee: 1,
            nonce: 3,
            data: RpcTransactionType::Transfers { transfers: vec![transfer_to_wallet(42)] },
        }],
    } };
    sync(&mut storage, &daemon, WALLET, true, Some(&event), &mut events).unwrap();
    // a pull pass from scratch over the same chain
    sync(&mut storage, &daemon, WALLET, true, None, &mut events).unwrap();
    assert_eq!(count_new_tx(&events, tx_hash), 1);
    assert!(storage.has_transaction(tx_hash));
}

#[test]
fn network_mismatch_is_fatal() {
    let mut daemon = base_daemon(10);
    daemon.mainnet = false;
    let mut storage = Storage::new();
    let mut events = Vec::new();
    let r = sync(&mut storage, &daemon, WALLET, true, None, &mut events);
    assert_eq!(r, Err(NetworkError::NetworkMismatch));
    assert_eq!(storage.get_synced_topoheight(), 0);
}

#[test]
fn missing_asset_chain_fails_cleanly() {
    // An account asset the daemon cannot answer for fails the pass with a
    // daemon API error.
    let mut daemon = base_daemon(10);
    daemon.account_assets = vec![5];
    let mut storage = Storage::new();
    let mut events = Vec::new();
    let r = sync(&mut storage, &daemon, WALLET, true, None, &mut events);
    assert_eq!(r, Err(NetworkError::DaemonAPIError));
}

#[test]
fn unregistered_account_wipes_balances() {
    // The daemon reports no nonce: balances and asset metadata are wiped.
    let mut daemon = base_daemon(10);
    daemon.nonce = None;
    let mut storage = Storage::new();
    storage.add_asset(NATIVE_ASSET, 8);
    storage.set_balance_for(NATIVE_ASSET, 100, 700);
    let mut events = Vec::new();
    let r = sync(&mut storage, &daemon, WALLET, true, None, &mut events);
    assert!(r.is_ok());
    assert!(!storage.has_any_balance());
    assert!(storage.get_assets().is_empty());
}

#[test]
fn unconfirmed_cache_preferred_over_decryption() {
    // A cached unconfirmed decryption for the same compressed ciphertext
    // wins over trial decryption.
    let mut daemon = base_daemon(20);
    daemon.account_assets = vec![NATIVE_ASSET];
    daemon.chains = vec![native_chain(15, 777, 999)];
    let mut storage = Storage::new();
    storage.add_unconfirmed_balance_decoded(NATIVE_ASSET, 777, 1234);
    let mut events = Vec::new();
    sync(&mut storage, &daemon, WALLET, true, None, &mut events).unwrap();
    let bal = storage.get_balance_for(NATIVE_ASSET).expect("balance stored");
    assert_eq!(bal.plaintext, 1234);
    assert!(events.contains(&Event::BalanceChanged { asset: NATIVE_ASSET, balance: 1234 }));
}

#[test]
fn burn_entry_only_for_owner() {
    // A burn is recorded only when the wallet sent it, and reports no
    // changed asset (so the pass skips the head-state refresh).
    let mut daemon = base_daemon(105);
    let own_burn = 80;
    let foreign_burn = 81;
    let block_hash = 1105;
    daemon.blocks[105].transactions = vec![
        RpcTransaction {
            hash: own_burn,
            source: WALLET,
            fee: 2,
            nonce: 1,
            data: RpcTransactionType::Burn { asset: NATIVE_ASSET, amount: 9 },
        },
        RpcTransaction {
            hash: foreign_burn,
            source: OTHER,
            fee: 2,
            nonce: 1,
            data: RpcTransactionType::Burn { asset: NATIVE_ASSET, amount: 9 },
        },
    ];
    daemon.executions = vec![
        TxExecution { tx_hash: own_burn, block_hash, topoheight: 105 },
        TxExecution { tx_hash: foreign_burn, block_hash, topoheight: 105 },
    ];
    let mut storage = Storage::new();
    storage.set_nonce(0);
    let mut events = Vec::new();
    let event = NewBlockEvent { topoheight: Some(105), block: BlockResponse {
        hash: block_hash,
        miner: OTHER,
        miner_mainnet: true,
        miner_reward: None,
        transactions: vec![
            RpcTransaction {
                hash: own_burn,
                source: WALLET,
                fee: 2,
                nonce: 1,
                data: RpcTransactionType::Burn { asset: NATIVE_ASSET, amount: 9 },
            },
            RpcTransaction {
                hash: foreign_burn,
                source: OTHER,
                fee: 2,
                nonce: 1,
                data: RpcTransactionType::Burn { asset: NATIVE_ASSET, amount: 9 },
            },
        ],
    } };
    let r = sync(&mut storage, &daemon, WALLET, true, Some(&event), &mut events);
    assert!(r.is_ok());
    let entry = storage.get_transaction(own_burn).expect("own burn stored");
    assert_eq!(entry.entry, EntryData::Burn { asset: NATIVE_ASSET, amount: 9 });
    assert!(!storage.has_transaction(foreign_burn));
}

#[test]
fn unexecuted_tx_redirected_to_executor() {
    // A candidate not executed in this block is stored under its true
    // executor's topoheight; one with no executor at all is skipped.
    let mut daemon = base_daemon(106);
    let redirected = 82;
    let unresolved = 83;
    daemon.blocks[106].transactions = vec![
        RpcTransaction {
            hash: redirected,
            source: OTHER,
            fee: 1,
            nonce: 0,
            data: RpcTransactionType::Transfers { transfers: vec![transfer_to_wallet(3)] },
        },
        RpcTransaction {
            hash: unresolved,
            source: OTHER,
            fee: 1,
            nonce: 0,
            data: RpcTransactionType::Transfers { transfers: vec![transfer_to_wallet(4)] },
        },
    ];
    // `redirected` was really executed in the block at topoheight 90
    daemon.executions = vec![TxExecution { tx_hash: redirected, block_hash: 1090, topoheight: 90 }];
    daemon.chains = vec![native_chain(106, 904, 7)];
    let mut storage = Storage::new();
    storage.set_nonce(0);
    let mut events = Vec::new();
    let event = NewBlockEvent { topoheight: Some(106), block: BlockResponse {
        hash: 1106,
        miner: OTHER,
        miner_mainnet: true,
        miner_reward: None,
        transactions: vec![
            RpcTransaction {
                hash: redirected,
                source: OTHER,
                fee: 1,
                nonce: 0,
                data: RpcTransactionType::Transfers { transfers: vec![transfer_to_wallet(3)] },
            },
            RpcTransaction {
                hash: unresolved,
                source: OTHER,
                fee: 1,
                nonce: 0,
                data: RpcTransactionType::Transfers { transfers: vec![transfer_to_wallet(4)] },
            },
        ],
    } };
    let r = sync(&mut storage, &daemon, WALLET, true, Some(&event), &mut events);
    assert!(r.is_ok());
    let entry = storage.get_transaction(redirected).expect("redirected entry stored");
    assert_eq!(entry.topoheight, 90);
    assert!(!storage.has_transaction(unresolved));
}
