//! Lifecycle decisions of the network handler: start, stop, is_running.

use parl_wallet::daemon::{AssetData, DaemonState};
use parl_wallet::handler::{NetworkHandler, TaskHandle};
use parl_wallet::model::{Event, NetworkError, NATIVE_ASSET};
use parl_wallet::storage::Storage;

fn tiny_daemon() -> DaemonState {
    DaemonState {
        topoheight: 0,
        top_block_hash: 1000,
        pruned_topoheight: 0,
        mainnet: true,
        nonce: Some(0),
        account_assets: Vec::new(),
        registered_assets: vec![AssetData { asset: NATIVE_ASSET, decimals: 8 }],
        blocks: vec![parl_wallet::daemon::BlockResponse {
            hash: 1000,
            miner: 9,
            miner_mainnet: true,
            miner_reward: None,
            transactions: Vec::new(),
        }],
        chains: Vec::new(),
        executions: Vec::new(),
    }
}

#[test]
fn start_twice_is_already_running() {
    let mut h = NetworkHandler::with_api(Storage::new(), tiny_daemon(), 7, true);
    let mut events = Vec::new();
    assert!(!h.is_running(true));
    assert!(h.start(true, true, &mut events).is_ok());
    assert!(h.is_running(true));
    assert_eq!(events, vec![Event::Online]);
    assert_eq!(h.start(true, true, &mut events), Err(NetworkError::AlreadyRunning));
}

#[test]
fn start_offline_without_reconnect_fails() {
    let mut h = NetworkHandler::with_api(Storage::new(), tiny_daemon(), 7, true);
    let mut events = Vec::new();
    assert_eq!(h.start(false, false, &mut events), Err(NetworkError::NotRunning));
    assert!(events.is_empty());
    // with a successful reconnect it starts
    assert!(h.start(false, true, &mut events).is_ok());
}

#[test]
fn stop_without_task_is_not_running() {
    let mut h = NetworkHandler::with_api(Storage::new(), tiny_daemon(), 7, true);
    let mut events = Vec::new();
    assert_eq!(h.stop(&mut events), Err(NetworkError::NotRunning));
}

#[test]
fn stop_aborts_live_task_and_emits_offline() {
    let mut h = NetworkHandler::with_api(Storage::new(), tiny_daemon(), 7, true);
    let mut events = Vec::new();
    h.start(true, true, &mut events).unwrap();
    assert!(h.stop(&mut events).is_ok());
    assert!(!h.is_running(true));
    assert_eq!(events, vec![Event::Online, Event::Offline]);
}

#[test]
fn stop_surfaces_task_failure() {
    let mut h = NetworkHandler::with_api(Storage::new(), tiny_daemon(), 7, true);
    let mut events = Vec::new();
    h.task = Some(TaskHandle { finished: true, failed: true });
    assert_eq!(h.stop(&mut events), Err(NetworkError::TaskError));
    h.task = Some(TaskHandle { finished: true, failed: false });
    assert!(h.stop(&mut events).is_ok());
    assert!(events.is_empty());
}

#[test]
fn running_needs_online_transport() {
    let mut h = NetworkHandler::with_api(Storage::new(), tiny_daemon(), 7, true);
    let mut events = Vec::new();
    h.start(true, true, &mut events).unwrap();
    assert!(h.is_running(true));
    assert!(!h.is_running(false));
    assert_eq!(h.get_api().topoheight, 0);
}
