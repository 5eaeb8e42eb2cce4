//! The Checkpoint Locator: find the highest topoheight on which wallet and
//! daemon still agree, and delete wallet state strictly above it.
//!
//! This is what makes the sync reorg-tolerant: after any DAG reorganization
//! or soft fork, the wallet rewinds to the returned checkpoint and rescans
//! from there.

use vstd::prelude::*;
use crate::model::{Event, NetworkError};
use crate::storage::{Storage, StorageV, lemma_same_txs, lemma_same_changes};
use crate::daemon::DaemonState;

verus! {

/// What the locator returns: the daemon's tip, the wallet's checkpoint, and
/// whether state above the checkpoint had to be abandoned.
pub struct SyncPoint {
    pub daemon_topoheight: u64,
    pub daemon_block_hash: u64,
    pub wallet_topoheight: u64,
    pub sync_back: bool,
}

/// Walk the "changes" markers downward from `probe`, comparing the wallet's
/// stored hash against the daemon's at the same topoheight. Returns the
/// first agreeing topoheight; 0 when none agrees; the pruned floor when the
/// walk falls below it (under the pruned point the daemon keeps no block
/// data, so the wallet accepts the chain there).
fn search_checkpoint(storage: &Storage, daemon: &DaemonState, probe: u64, pruned: u64) -> (r:
    u64)
    requires
        storage@.wf(),
        daemon.wf(),
        probe <= daemon.topoheight,
        pruned <= daemon.topoheight,
    ensures
        r <= daemon.topoheight,
        r == 0 || r == pruned || (storage@.has_change(r) && storage@.change_hash(r)
            == daemon.hash_at(r) && r <= probe),
        // nothing above the checkpoint, up to the probe, still agrees
        forall|t: u64|
            storage@.has_change(t) && r < t && t <= probe && t >= pruned
                ==> storage@.change_hash(t) != daemon.hash_at(t),
    decreases probe,
{
    let m = storage.get_highest_topoheight_in_changes_below(probe);
    if m == 0 {
        return 0;
    }
    if m < pruned {
        return pruned;
    }
    match storage.get_block_hash_for_topoheight(m) {
        Option::Some(local_hash) => {
            let header = daemon.get_block_at_topoheight(m);
            if header.hash == local_hash {
                return m;
            }
            let r = search_checkpoint(storage, daemon, m - 1, pruned);
            proof {
                assert forall|t: u64|
                    storage@.has_change(t) && r < t && t <= probe && t >= pruned
                        implies storage@.change_hash(t) != daemon.hash_at(t) by {
                    if t > m - 1 {
                        // the walk found no marker strictly above m, and the
                        // one at m disagrees
                        assert(t <= m);
                    }
                }
            }
            r
        },
        Option::None => {
            // cannot happen: m came from the changes index
            proof {
                assert(storage@.has_change(m));
            }
            0
        },
    }
}

/// Locate the last topoheight still valid for syncing and clean everything
/// above it: delete changes markers and transaction entries above the
/// checkpoint, persist the checkpoint as the new head pointer, and emit
/// `Rescan` when this was not the wallet's first sync.
pub fn locate_sync_topoheight_and_clean(
    storage: &mut Storage,
    daemon: &DaemonState,
    mainnet: bool,
    events: &mut Vec<Event>,
) -> (r: Result<SyncPoint, NetworkError>)
    requires
        old(storage)@.wf(),
        daemon.wf(),
        old(storage)@.top_block_hash is None ==> old(storage)@.synced_topoheight
            <= daemon.topoheight,
    ensures
        final(storage)@.wf(),
        r is Err <==> daemon.mainnet != mainnet,
        r is Err ==> r == Result::<SyncPoint, NetworkError>::Err(NetworkError::NetworkMismatch)
            && final(storage)@ == old(storage)@ && final(events)@ == old(events)@,
        r matches Result::Ok(p) ==> ({
            &&& p.daemon_topoheight == daemon.topoheight
            &&& p.daemon_block_hash == daemon.top_block_hash
            &&& p.wallet_topoheight <= daemon.topoheight
            // a wallet ahead of the daemon rewinds from scratch
            &&& (old(storage)@.top_block_hash is Some && old(storage)@.synced_topoheight
                > daemon.topoheight ==> p.wallet_topoheight == 0 && p.sync_back && final(storage)@ == old(storage)@ && final(events)@ == old(events)@)
            // no cleanup needed: already on the daemon's chain
            &&& (!p.sync_back ==> final(storage)@ == old(storage)@ && final(events)@ == old(events)@ && p.wallet_topoheight == old(storage)@.synced_topoheight && old(storage)@.top_block_hash is Some)
            // a wallet already at the daemon's tip takes the fast path
            &&& (old(storage)@.top_block_hash == Option::Some(daemon.top_block_hash) && old(storage)@.synced_topoheight == daemon.topoheight ==> !p.sync_back)
            // probe shortcut: the block the wallet is synced to is still
            // the daemon's block there, so nothing is rewound
            &&& (old(storage)@.top_block_hash matches Option::Some(h) && old(storage)@.synced_topoheight <= daemon.topoheight && old(storage)@.synced_topoheight
                > daemon.pruned_topoheight && daemon.hash_at(old(storage)@.synced_topoheight)
                == h ==> !p.sync_back)
            &&& (!p.sync_back && old(storage)@.synced_topoheight == daemon.topoheight
                ==> old(storage)@.top_block_hash == Option::Some(daemon.top_block_hash))
            // cleanup: the head pointer moves to the checkpoint, whose hash
            // is the daemon's at that topoheight, and nothing above it stays
            &&& (p.sync_back && !(old(storage)@.top_block_hash is Some && old(storage)@.synced_topoheight > daemon.topoheight) ==> ({
                // the checkpoint never lies above the old synced point,
                // except when the pruned floor is accepted
                &&& (p.wallet_topoheight <= old(storage)@.synced_topoheight
                    || p.wallet_topoheight == daemon.pruned_topoheight)
                // the checkpoint is the highest still-agreeing marker at or
                // below the old synced point, else the pruned floor or 0
                &&& (p.wallet_topoheight == 0 || p.wallet_topoheight
                    == daemon.pruned_topoheight || (old(storage)@.has_change(
                    p.wallet_topoheight,
                ) && old(storage)@.change_hash(p.wallet_topoheight) == daemon.hash_at(
                    p.wallet_topoheight,
                )))
                &&& forall|t: u64|
                    old(storage)@.has_change(t) && p.wallet_topoheight < t && t <= old(storage)@.synced_topoheight && t >= daemon.pruned_topoheight
                        ==> old(storage)@.change_hash(t) != daemon.hash_at(t)
                &&& final(storage)@.synced_topoheight == p.wallet_topoheight
                &&& final(storage)@.top_block_hash == Option::Some(
                    daemon.hash_at(p.wallet_topoheight),
                )
                &&& final(storage)@.has_change(p.wallet_topoheight)
                &&& forall|t: u64| final(storage)@.has_change(t) ==> t <= p.wallet_topoheight
                &&& forall|t: u64|
                    t != p.wallet_topoheight ==> (final(storage)@.has_change(t) ==> old(storage)@.has_change(t))
                &&& (forall|x: u64|
                    final(storage)@.has_tx(x) ==> old(storage)@.has_tx(x) && final(storage)@.tx_at(x) == old(storage)@.tx_at(x))
                // transactions above the checkpoint are deleted with the
                // changes that justified them
                &&& ((exists|t: u64|
                    #[trigger] old(storage)@.has_change(t) && t > p.wallet_topoheight)
                    ==> forall|x: u64|
                    final(storage)@.has_tx(x) ==> final(storage)@.tx_at(x).topoheight
                        <= p.wallet_topoheight)
                &&& ((forall|t: u64|
                    #[trigger] old(storage)@.has_change(t) ==> t <= p.wallet_topoheight)
                    ==> forall|x: u64|
                    final(storage)@.has_tx(x) == old(storage)@.has_tx(x))
                &&& final(storage)@ == (StorageV {
                    txs: final(storage)@.txs,
                    changes: final(storage)@.changes,
                    synced_topoheight: final(storage)@.synced_topoheight,
                    top_block_hash: final(storage)@.top_block_hash,
                    ..old(storage)@
                })
                &&& final(events)@ == if old(storage)@.synced_topoheight != 0 {
                    old(events)@.push(Event::Rescan { start_topoheight: p.wallet_topoheight })
                } else {
                    old(events)@
                }
            }))
        }),
{
    let daemon_topoheight = daemon.topoheight;
    let daemon_block_hash = daemon.top_block_hash;
    let pruned_topoheight = daemon.pruned_topoheight;

    // the wallet's network identity must equal the daemon's
    if daemon.mainnet != mainnet {
        return Result::Err(NetworkError::NetworkMismatch);
    }

    let synced_topoheight: u64;
    if storage.has_top_block_hash() {
        let top_block_hash = match storage.get_top_block_hash() {
            Option::Some(h) => h,
            Option::None => {
                return Result::Err(NetworkError::NetworkMismatch);
            },
        };
        let synced = storage.get_synced_topoheight();

        // fast path: same tip, same hash
        if daemon_topoheight == synced && daemon_block_hash == top_block_hash {
            return Result::Ok(SyncPoint {
                daemon_topoheight,
                daemon_block_hash,
                wallet_topoheight: synced,
                sync_back: false,
            });
        }

        // a wallet above the daemon's chain rewinds from scratch
        if synced > daemon_topoheight {
            return Result::Ok(SyncPoint {
                daemon_topoheight,
                daemon_block_hash,
                wallet_topoheight: 0,
                sync_back: true,
            });
        }

        // probe: is the block we are synced to still the daemon's?
        if synced > pruned_topoheight {
            let header = daemon.get_block_at_topoheight(synced);
            if header.hash == top_block_hash {
                return Result::Ok(SyncPoint {
                    daemon_topoheight,
                    daemon_block_hash,
                    wallet_topoheight: synced,
                    sync_back: false,
                });
            }
        }
        synced_topoheight = synced;
    } else {
        synced_topoheight = storage.get_synced_topoheight();
    }

    // walk the changes markers downward to the highest agreeing point
    let maximum = search_checkpoint(storage, daemon, synced_topoheight, pruned_topoheight);

    // the checkpoint's hash, as the daemon reports it
    let block_hash = daemon.get_block_at_topoheight(maximum).hash;

    // clean everything above the checkpoint
    let ghost st0 = storage@;
    let deleted = storage.delete_changes_above_topoheight(maximum);
    let ghost st1 = storage@;
    if deleted {
        // changes were deleted, so their transactions go too
        storage.delete_transactions_above_topoheight(maximum);
    }
    let ghost st2 = storage@;
    proof {
        assert(st2.changes == st1.changes);
        lemma_same_changes(st1, st2);
    }
    storage.set_synced_topoheight(maximum);
    storage.set_top_block_hash(block_hash);
    let ghost st3 = storage@;
    if !storage.has_topoheight_in_changes(maximum) {
        storage.add_topoheight_to_changes(maximum, block_hash);
    }

    // not the first sync: the embedding wallet must rescan from here
    if synced_topoheight != 0 {
        events.push(Event::Rescan { start_topoheight: maximum });
    }

    proof {
        if !deleted {
            assert(forall|t: u64| #[trigger] st0.has_change(t) ==> t <= maximum);
        }
        // transaction membership and values survive the head-pointer writes
        assert(st3.txs == st2.txs && storage@.txs == st3.txs);
        lemma_same_txs(st2, storage@);
        assert forall|x: u64| storage@.has_tx(x) implies st0.has_tx(x) && storage@.tx_at(x)
            == st0.tx_at(x) by {
            assert(st2.has_tx(x));
        }
        // the changes index holds nothing above the checkpoint
        assert(st3.changes == st2.changes);
        lemma_same_changes(st2, st3);
        assert(storage@.has_change(maximum));
        assert forall|t: u64| storage@.has_change(t) implies t <= maximum by {
            if t != maximum {
                assert(st3.has_change(t));
                assert(st2.has_change(t));
                assert(st1.has_change(t));
            }
        }
        assert forall|t: u64| t != maximum && storage@.has_change(t) implies st0.has_change(
            t,
        ) by {
            assert(st3.has_change(t));
            assert(st2.has_change(t));
            assert(st1.has_change(t));
        }
        if deleted {
            assert forall|x: u64| storage@.has_tx(x) implies storage@.tx_at(x).topoheight
                <= maximum by {
                assert(st2.has_tx(x));
            }
        }
        if forall|t: u64| #[trigger] st0.has_change(t) ==> t <= maximum {
            assert(!deleted);
            lemma_same_txs(st0, storage@);
        }
    }

    Result::Ok(SyncPoint {
        daemon_topoheight,
        daemon_block_hash,
        wallet_topoheight: maximum,
        sync_back: true,
    })
}

} // verus!
