//! The network handler: the lifecycle controller around the sync core.
//!
//! The handler owns the wallet's ledger and the daemon snapshot the sync
//! functions read, plus the state of the background sync task. The task
//! itself, the transport and its reconnection timer live in the embedding
//! application; what the handler decides about them — when `start` may
//! spawn, what `stop` tears down, what counts as running — is here.

use vstd::prelude::*;
use crate::model::{Event, NetworkError};
use crate::storage::Storage;
use crate::daemon::DaemonState;

verus! {

/// What the handler knows of its background sync task.
#[derive(Debug, Clone, Copy, PartialEq, Eq)]
pub struct TaskHandle {
    /// The task ran to completion (its failure is then `failed`).
    pub finished: bool,
    pub failed: bool,
}

/// The chain-synchronization handler of one wallet.
pub struct NetworkHandler {
    /// The background sync task, when one was started.
    pub task: Option<TaskHandle>,
    /// The wallet's ledger.
    pub storage: Storage,
    /// The chain state read from the daemon.
    pub api: DaemonState,
    /// The wallet account's public key.
    pub address: u64,
    /// Whether the wallet lives on mainnet.
    pub mainnet: bool,
}

impl NetworkHandler {
    /// Build a handler around an already established daemon connection.
    pub fn with_api(storage: Storage, api: DaemonState, address: u64, mainnet: bool) -> (r:
        Self)
        ensures
            r.task is None,
            r.storage == storage,
            r.api == api,
            r.address == address,
            r.mainnet == mainnet,
    {
        NetworkHandler { task: Option::None, storage, api, address, mainnet }
    }

    /// The daemon interface the handler reads.
    pub fn get_api(&self) -> (r: &DaemonState)
        ensures
            r == &self.api,
    {
        &self.api
    }

    /// Running means: a task exists, it has not finished, and the
    /// transport is online.
    pub fn is_running(&self, api_online: bool) -> (r: bool)
        ensures
            r == (self.task matches Option::Some(t) && !t.finished && api_online),
    {
        match self.task {
            Option::Some(t) => !t.finished && api_online,
            Option::None => false,
        }
    }

    /// Start the sync task. Fails `AlreadyRunning` while one runs; with the
    /// transport offline, a single reconnection attempt is made and its
    /// failure surfaces as `NotRunning`. On success a task exists and
    /// `Online` is emitted.
    pub fn start(&mut self, api_online: bool, reconnect_ok: bool, events: &mut Vec<Event>) -> (r:
        Result<(), NetworkError>)
        ensures
            r is Err <==> (old(self).task matches Option::Some(t) && !t.finished && api_online)
                || (!api_online && !reconnect_ok),
            (old(self).task matches Option::Some(t) && !t.finished && api_online) ==> r
                == Result::<(), NetworkError>::Err(NetworkError::AlreadyRunning),
            (!(old(self).task matches Option::Some(t) && !t.finished && api_online)
                && !api_online && !reconnect_ok) ==> r == Result::<(), NetworkError>::Err(
                NetworkError::NotRunning,
            ),
            r is Err ==> *final(self) == *old(self) && final(events)@ == old(events)@,
            r is Ok ==> final(self).task == Option::Some(
                TaskHandle { finished: false, failed: false },
            ) && final(events)@ == old(events)@.push(Event::Online),
            *final(self) == (NetworkHandler { task: final(self).task, ..*old(self) }),
    {
        if self.is_running(api_online) {
            return Result::Err(NetworkError::AlreadyRunning);
        }
        if !api_online {
            // the transport is offline: try to reconnect once
            if !reconnect_ok {
                return Result::Err(NetworkError::NotRunning);
            }
        }
        self.task = Option::Some(TaskHandle { finished: false, failed: false });
        events.push(Event::Online);
        Result::Ok(())
    }

    /// Stop the sync task. Fails `NotRunning` without one; a finished task
    /// is joined (surfacing its failure as `TaskError`), a live one is
    /// aborted and `Offline` is emitted. Either way the task is taken.
    pub fn stop(&mut self, events: &mut Vec<Event>) -> (r: Result<(), NetworkError>)
        ensures
            old(self).task is None ==> r == Result::<(), NetworkError>::Err(
                NetworkError::NotRunning,
            ) && *final(self) == *old(self) && final(events)@ == old(events)@,
            old(self).task matches Option::Some(t) ==> ({
                &&& final(self).task is None
                &&& *final(self) == (NetworkHandler { task: Option::None, ..*old(self) })
                &&& (t.finished ==> final(events)@ == old(events)@ && r == (if t.failed {
                    Result::<(), NetworkError>::Err(NetworkError::TaskError)
                } else {
                    Result::<(), NetworkError>::Ok(())
                }))
                &&& (!t.finished ==> final(events)@ == old(events)@.push(Event::Offline) && r
                    == Result::<(), NetworkError>::Ok(()))
            }),
    {
        match self.task {
            Option::Some(handle) => {
                self.task = Option::None;
                if handle.finished {
                    // the task already ended: join it and surface failure
                    if handle.failed {
                        Result::Err(NetworkError::TaskError)
                    } else {
                        Result::Ok(())
                    }
                } else {
                    // abort the task and say we went offline
                    events.push(Event::Offline);
                    Result::Ok(())
                }
            },
            Option::None => Result::Err(NetworkError::NotRunning),
        }
    }
}

} // verus!
