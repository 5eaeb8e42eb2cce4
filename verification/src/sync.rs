//! One full reconciliation pass and the supervisor's event handlers.
//!
//! `sync` sequences a pass: locate the checkpoint, reconcile head state,
//! process a pushed block if one arrived, walk the balance chains, and
//! advance the head pointer. `handle_block_ordered` and
//! `handle_transaction_orphaned` are the decisions the supervisor takes on
//! its other event streams.

use vstd::prelude::*;
use crate::model::{Event, NetworkError, nonce_mono};
use crate::storage::{Storage, StorageV};
use crate::daemon::{BlockResponse, DaemonState};
use crate::processor::{process_block, block_assets, block_relevant_hash,
    wallet_relevant_hash, coinbase_relevant, spec_tx_entry, resolved_topo, tx_added,
    coinbase_added, block_added_hashes, lemma_added_hashes_complete, lemma_replay_is_noop};
use crate::model::{TransactionEntryV, EntryDataV};
use crate::storage::{lemma_same_txs, lemma_prefix_txs};
use crate::locator::locate_sync_topoheight_and_clean;
use crate::head_state::{sync_head_state, asset_ok};
use crate::walker::sync_new_blocks;

verus! {

/// A pushed `new_block` notification: the block, and its topoheight when
/// the DAG has ordered it (a block the DAG orphaned at once carries none).
pub struct NewBlockEvent {
    pub topoheight: Option<u64>,
    pub block: BlockResponse,
}

/// The daemon's nonce does not contradict the wallet's: either side may be
/// missing, but a daemon nonce below the stored one means the snapshot is
/// older than the wallet and a pass over it may rewind the stored nonce.
pub open spec fn daemon_nonce_ok(d: DaemonState, st: StorageV) -> bool {
    match st.nonce {
        Option::None => true,
        Option::Some(sn) => match d.nonce {
            Option::None => true,
            Option::Some(dn) => dn >= sn,
        },
    }
}

/// Every asset a pass can meet is reconcilable: the account's declared
/// assets, and every asset any block's scan can report as changed, have a
/// balance chain and registered metadata.
pub open spec fn sync_assets_ok(d: DaemonState, addr: u64) -> bool {
    &&& forall|i: int|
        0 <= i < d.account_assets@.len() ==> d.has_chain(#[trigger] d.account_assets@[i])
            && d.has_asset_data(d.account_assets@[i])
    &&& forall|t: int, a: u64|
        0 <= t < d.blocks@.len() && #[trigger] block_assets(d.blocks@[t], addr).contains(a)
            ==> d.has_chain(a) && d.has_asset_data(a)
}

/// One full reconciliation pass.
#[verifier::rlimit(100)]
#[verifier::spinoff_prover]
pub fn sync(
    storage: &mut Storage,
    daemon: &DaemonState,
    address: u64,
    mainnet: bool,
    event: Option<&NewBlockEvent>,
    events: &mut Vec<Event>,
) -> (r: Result<(), NetworkError>)
    requires
        old(storage)@.wf(),
        daemon.wf(),
        daemon.account_assets@.no_duplicates(),
        old(storage)@.top_block_hash is None ==> old(storage)@.synced_topoheight
            <= daemon.topoheight,
        // a pushed block is the daemon's block at its topoheight
        event matches Option::Some(e) ==> (e.topoheight matches Option::Some(t) ==> t
            <= daemon.topoheight && e.block == daemon.blocks@[t as int]),
    ensures
        final(storage)@.wf(),
        // after success the head pointer is the daemon's tip
        r is Ok ==> final(storage)@.synced_topoheight == daemon.topoheight && final(storage)@.top_block_hash == Option::Some(daemon.top_block_hash),
        r is Ok ==> final(events)@.len() > old(events)@.len() && final(events)@.last()
            == (Event::NewTopoHeight { topoheight: daemon.topoheight }),
        // the stored nonce never decreases unless the daemon's snapshot is
        // behind the wallet
        daemon_nonce_ok(*daemon, old(storage)@) ==> nonce_mono(
            old(storage)@.nonce,
            final(storage)@.nonce,
        ),
        // the unconfirmed cache and tx cache are never touched by a pass
        final(storage)@ == (StorageV {
            txs: final(storage)@.txs,
            changes: final(storage)@.changes,
            synced_topoheight: final(storage)@.synced_topoheight,
            top_block_hash: final(storage)@.top_block_hash,
            nonce: final(storage)@.nonce,
            assets: final(storage)@.assets,
            balances: final(storage)@.balances,
            ..old(storage)@
        }),
        // a network mismatch is exactly what aborts a pass fatally
        daemon.mainnet != mainnet <==> r == Result::<(), NetworkError>::Err(
            NetworkError::NetworkMismatch,
        ),
        // success is owed whenever the networks agree and every asset the
        // pass can meet is reconcilable
        (daemon.mainnet == mainnet && sync_assets_ok(*daemon, address)) ==> r is Ok,
        // a second pass over an unchanged daemon is a no-op on storage:
        // only the head pointer is rewritten, to the same values
        (r is Ok && event is None && old(storage)@.top_block_hash == Option::Some(
            daemon.top_block_hash,
        ) && old(storage)@.synced_topoheight == daemon.topoheight) ==> final(storage)@
            == old(storage)@ && final(events)@ == old(events)@.push(
            Event::NewTopoHeight { topoheight: daemon.topoheight },
        ),
        // every newly stored hash is justified by a daemon block's
        // relevant content: a block the wallet mined, or a transaction
        // that yields an entry for it
        r is Ok ==> forall|x: u64|
            final(storage)@.has_tx(x) && !old(storage)@.has_tx(x)
                ==> #[trigger] wallet_relevant_hash(*daemon, address, x),
        // a pushed, ordered block's relevant content is persisted: its
        // coinbase when the wallet mined it, and every transaction that
        // yields an entry and resolves to an executor
        r is Ok ==> (event matches Option::Some(e) ==> (e.topoheight matches Option::Some(t)
            ==> ({
            let b = daemon.blocks@[t as int];
            &&& (coinbase_relevant(b, address) ==> final(storage)@.has_tx(b.hash))
            &&& (coinbase_relevant(b, address) && !old(storage)@.has_tx(b.hash) ==> final(storage)@.tx_at(b.hash)@ == (TransactionEntryV {
                hash: b.hash,
                topoheight: t,
                entry: EntryDataV::Coinbase { reward: b.miner_reward.unwrap() },
            }))
            &&& (forall|j: int|
                0 <= j < b.transactions@.len() && spec_tx_entry(
                    #[trigger] b.transactions@[j],
                    address,
                ) is Some && resolved_topo(*daemon, b.transactions@[j].hash, b.hash, t) is Some
                    ==> final(storage)@.has_tx(b.transactions@[j].hash))
            &&& (forall|j: int|
                0 <= j < b.transactions@.len() && spec_tx_entry(
                    #[trigger] b.transactions@[j],
                    address,
                ) is Some && resolved_topo(*daemon, b.transactions@[j].hash, b.hash, t) is Some
                    && !old(storage)@.has_tx(b.transactions@[j].hash) ==> final(storage)@.tx_at(
                    b.transactions@[j].hash,
                )@ == (TransactionEntryV {
                    hash: b.transactions@[j].hash,
                    topoheight: resolved_topo(
                        *daemon,
                        b.transactions@[j].hash,
                        b.hash,
                        t,
                    ).unwrap(),
                    entry: spec_tx_entry(b.transactions@[j], address).unwrap(),
                }))
        }))),
        // replaying a pushed block whose relevant content is already
        // stored, at an unchanged tip, is a no-op on storage and emits no
        // duplicate events
        r is Ok ==> (event matches Option::Some(e) ==> (e.topoheight matches Option::Some(t)
            ==> ((old(storage)@.top_block_hash == Option::Some(daemon.top_block_hash) && old(storage)@.synced_topoheight == daemon.topoheight && (coinbase_relevant(
            daemon.blocks@[t as int],
            address,
        ) ==> old(storage)@.has_tx(daemon.blocks@[t as int].hash)) && (forall|j: int|
            0 <= j < daemon.blocks@[t as int].transactions@.len() && spec_tx_entry(
                #[trigger] daemon.blocks@[t as int].transactions@[j],
                address,
            ) is Some ==> old(storage)@.has_tx(daemon.blocks@[t as int].transactions@[j].hash)))
            ==> final(storage)@ == old(storage)@ && final(events)@ == old(events)@.push(
            Event::NewTopoHeight { topoheight: daemon.topoheight },
        )))),
{
    let ghost st0 = storage@;
    let ghost ev0 = events@;

    // 1. locate the checkpoint and clean what lies above it
    let sp = match locate_sync_topoheight_and_clean(storage, daemon, mainnet, events) {
        Result::Ok(p) => p,
        Result::Err(e) => {
            return Result::Err(e);
        },
    };
    let ghost st1 = storage@;
    proof {
        // the locator only deletes entries, and keeps what it keeps intact
        assert forall|x: u64| #[trigger] st1.has_tx(x) implies st0.has_tx(x) && st1.tx_at(x)
            == st0.tx_at(x) by {}
    }

    // 2. after a rewind, refresh the whole head state
    let mut sync_blocks = false;
    if sp.sync_back {
        match sync_head_state(storage, daemon, Option::None, Option::None, true, events) {
            Result::Ok(f) => {
                sync_blocks = f;
            },
            Result::Err(e) => {
                proof {
                    if sync_assets_ok(*daemon, address) {
                        assert(forall|i: int|
                            0 <= i < daemon.account_assets@.len() ==> asset_ok(
                                st1,
                                *daemon,
                                #[trigger] daemon.account_assets@[i],
                            ));
                        assert(false);
                    }
                }
                return Result::Err(e);
            },
        }
    }
    let ghost st2 = storage@;
    proof {
        assert(st2.txs == st1.txs);
        lemma_same_txs(st1, st2);
    }
    let ghost mut stp = st2;

    // 3. a pushed block is processed directly
    if let Option::Some(ev) = event {
        if let Option::Some(t) = ev.topoheight {
            let changed = match process_block(
                storage,
                daemon,
                address,
                mainnet,
                &ev.block,
                t,
                events,
            ) {
                Result::Ok(c) => c,
                Result::Err(e) => {
                    proof {
                        assert(ev.block.miner_mainnet == daemon.mainnet);
                        assert(false);
                    }
                    return Result::Err(e);
                },
            };
            proof {
                stp = storage@;
                // what the scan persisted, against the pre-scan ledger
                lemma_added_hashes_complete(
                    *daemon,
                    ev.block.transactions@,
                    address,
                    ev.block.hash,
                    t,
                    st2,
                );
                let added = block_added_hashes(*daemon, ev.block, address, t, st2);
                let hashes = crate::processor::added_tx_hashes(
                    *daemon,
                    ev.block.transactions@,
                    address,
                    ev.block.hash,
                    t,
                    st2,
                );
                if coinbase_relevant(ev.block, address) {
                    assert(stp.has_tx(ev.block.hash)) by {
                        if !st2.has_tx(ev.block.hash) {
                            assert(coinbase_added(ev.block, address, st2));
                            assert(added[0] == ev.block.hash);
                            assert(added.contains(ev.block.hash));
                        }
                    }
                    if !st0.has_tx(ev.block.hash) {
                        assert(!st2.has_tx(ev.block.hash));
                        assert(stp.tx_at(ev.block.hash)@ == (TransactionEntryV {
                            hash: ev.block.hash,
                            topoheight: t,
                            entry: EntryDataV::Coinbase {
                                reward: ev.block.miner_reward.unwrap(),
                            },
                        }));
                    }
                }
                assert forall|j: int|
                    0 <= j < ev.block.transactions@.len() && spec_tx_entry(
                        #[trigger] ev.block.transactions@[j],
                        address,
                    ) is Some && resolved_topo(
                        *daemon,
                        ev.block.transactions@[j].hash,
                        ev.block.hash,
                        t,
                    ) is Some implies stp.has_tx(ev.block.transactions@[j].hash) && (!st0
                    .has_tx(ev.block.transactions@[j].hash) ==> stp.tx_at(
                    ev.block.transactions@[j].hash,
                )@ == (TransactionEntryV {
                    hash: ev.block.transactions@[j].hash,
                    topoheight: resolved_topo(
                        *daemon,
                        ev.block.transactions@[j].hash,
                        ev.block.hash,
                        t,
                    ).unwrap(),
                    entry: spec_tx_entry(ev.block.transactions@[j], address).unwrap(),
                })) by {
                    let h = ev.block.transactions@[j].hash;
                    if !st2.has_tx(h) {
                        assert(tx_added(
                            *daemon,
                            ev.block.transactions@[j],
                            address,
                            ev.block.hash,
                            t,
                            st2,
                        ));
                        assert(hashes.contains(h));
                        let k = choose|k: int| 0 <= k < hashes.len() && hashes[k] == h;
                        let ghost cb: Seq<u64> = if coinbase_added(ev.block, address, st2) {
                            Seq::empty().push(ev.block.hash)
                        } else {
                            Seq::empty()
                        };
                        assert(added == cb + hashes);
                        assert(added[cb.len() + k] == h);
                        assert(added.contains(h));
                        assert(stp.has_tx(h));
                    } else {
                        assert(st0.has_tx(h));
                    }
                }
            }
            if let Option::Some(pair) = changed {
                let (assets_changed, found_nonce) = pair;
                // suppress a nonce hint the stored nonce already covers:
                // storing it again could break queued transactions
                let stored_nonce = match storage.get_nonce() {
                    Option::Some(x) => x,
                    Option::None => 0,
                };
                let nonce_hint: Option<u64> = match found_nonce {
                    Option::Some(nh) => if nh <= stored_nonce {
                        Option::None
                    } else {
                        Option::Some(nh)
                    },
                    Option::None => Option::None,
                };
                let ghost st3 = storage@;
                match sync_head_state(
                    storage,
                    daemon,
                    Option::Some(&assets_changed),
                    nonce_hint,
                    false,
                    events,
                ) {
                    Result::Ok(f) => {
                        sync_blocks = sync_blocks || f;
                    },
                    Result::Err(e) => {
                        proof {
                            if sync_assets_ok(*daemon, address) {
                                assert forall|i: int|
                                    0 <= i < assets_changed@.len() implies asset_ok(
                                    st3,
                                    *daemon,
                                    #[trigger] assets_changed@[i],
                                ) by {
                                    assert(block_assets(daemon.blocks@[t as int], address)
                                        .contains(assets_changed@[i]));
                                }
                                assert(false);
                            }
                        }
                        return Result::Err(e);
                    },
                }
            }
        }
        // a block the DAG orphaned at once carries no topoheight: ignored
    } else {
        sync_blocks = true;
    }
    let ghost st4 = storage@;
    proof {
        assert(st4.txs == stp.txs);
        lemma_same_txs(stp, st4);
        assert forall|x: u64|
            st4.has_tx(x) && !st0.has_tx(x) implies #[trigger] wallet_relevant_hash(
            *daemon,
            address,
            x,
        ) by {
            assert(stp.has_tx(x));
            assert(!st2.has_tx(x));
            match event {
                Option::Some(e) => {
                    match e.topoheight {
                        Option::Some(t2) => {
                            assert(block_relevant_hash(e.block, address, x));
                            assert(e.block == daemon.blocks@[t2 as int]);
                        },
                        Option::None => {},
                    }
                },
                Option::None => {},
            }
        }
    }

    // 4. walk the balance chains down to the checkpoint
    if sync_blocks {
        sync_new_blocks(storage, daemon, address, mainnet, sp.wallet_topoheight, true, events);
    }
    let ghost st5 = storage@;

    // 5. advance the head pointer to the daemon's tip
    storage.set_synced_topoheight(sp.daemon_topoheight);
    storage.set_top_block_hash(sp.daemon_block_hash);
    events.push(Event::NewTopoHeight { topoheight: sp.daemon_topoheight });

    proof {
        // entries present after the scan survive to the end, unchanged
        assert(storage@.txs == st5.txs);
        lemma_same_txs(st5, storage@);
        assert forall|x: u64| #[trigger] st4.has_tx(x) implies storage@.has_tx(x) && storage@
            .tx_at(x) == st4.tx_at(x) by {
            assert(st5.has_tx(x) && st5.tx_at(x) == st4.tx_at(x));
        }
        assert forall|x: u64|
            storage@.has_tx(x) && !st0.has_tx(x) implies #[trigger] wallet_relevant_hash(
            *daemon,
            address,
            x,
        ) by {
            if st4.has_tx(x) {
            } else {
                assert(st5.has_tx(x) && !st4.has_tx(x));
            }
        }
        // replaying an already stored block at an unchanged tip
        match event {
            Option::Some(e) => {
                match e.topoheight {
                    Option::Some(t2) => {
                        if st0.top_block_hash == Option::Some(daemon.top_block_hash)
                            && st0.synced_topoheight == daemon.topoheight
                            && (coinbase_relevant(e.block, address) ==> st0.has_tx(
                            e.block.hash,
                        )) && (forall|j: int|
                            0 <= j < e.block.transactions@.len() && spec_tx_entry(
                                #[trigger] e.block.transactions@[j],
                                address,
                            ) is Some ==> st0.has_tx(e.block.transactions@[j].hash)) {
                            assert(!sp.sync_back);
                            assert(st2 == st0);
                            lemma_replay_is_noop(*daemon, e.block, address, t2, st0);
                            assert(block_added_hashes(*daemon, e.block, address, t2, st2).len()
                                == 0);
                            assert(stp == st2);
                            assert(st4 == st0);
                            assert forall|a: u64| #[trigger] daemon.has_chain(a)
                                implies daemon.chain_of(a)[0].topoheight
                                <= sp.wallet_topoheight by {
                                let ci = daemon.chain_ix(a);
                                assert(DaemonState::chain_wf(
                                    daemon.chains@[ci].versions@,
                                    daemon.topoheight,
                                ));
                            }
                            assert(st5 == st0);
                            assert(storage@ =~= st0);
                            assert(events@ =~= ev0.push(Event::NewTopoHeight {
                                topoheight: daemon.topoheight,
                            }));
                        }
                    },
                    Option::None => {},
                }
            },
            Option::None => {},
        }
        // a fully synced wallet saw nothing change
        if event is None && st0.top_block_hash == Option::Some(daemon.top_block_hash)
            && st0.synced_topoheight == daemon.topoheight {
            assert(!sp.sync_back);
            assert(st2 == st0);
            assert(st4 == st0);
            assert forall|a: u64| #[trigger] daemon.has_chain(a) implies daemon.chain_of(
                a,
            )[0].topoheight <= sp.wallet_topoheight by {
                let ci = daemon.chain_ix(a);
                assert(DaemonState::chain_wf(daemon.chains@[ci].versions@, daemon.topoheight));
            }
            assert(st5 == st0);
            assert(storage@ =~= st0);
            assert(events@ =~= ev0.push(Event::NewTopoHeight { topoheight: daemon.topoheight }));
        }
    }
    Result::Ok(())
}

/// Whether a `block_ordered` notification reveals a reorg: the wallet had
/// marked this topoheight with a different block hash.
pub open spec fn reorg_detected(st: StorageV, topoheight: u64, block_hash: u64) -> bool {
    st.has_change(topoheight) && topoheight != 0 && st.change_hash(topoheight) != block_hash
}

/// The supervisor's `block_ordered` decision: when the DAG reorders a
/// topoheight the wallet had marked, and the hash changed, this is a reorg:
/// abandon the markers and the transaction entries above it, lower the head
/// pointer if it lay above, and re-process the newly ordered block.
#[verifier::rlimit(100)]
#[verifier::spinoff_prover]
pub fn handle_block_ordered(
    storage: &mut Storage,
    daemon: &DaemonState,
    address: u64,
    mainnet: bool,
    topoheight: u64,
    block_hash: u64,
    events: &mut Vec<Event>,
) -> (r: Result<(), NetworkError>)
    requires
        old(storage)@.wf(),
        daemon.wf(),
        mainnet == daemon.mainnet,
        topoheight <= daemon.topoheight,
        block_hash == daemon.hash_at(topoheight),
    ensures
        final(storage)@.wf(),
        r is Ok,
        !reorg_detected(old(storage)@, topoheight, block_hash) ==> final(storage)@ == old(storage)@ && final(events)@ == old(events)@,
        // no marker above the reorg point survives
        reorg_detected(old(storage)@, topoheight, block_hash) ==> forall|t: u64|
            #[trigger] final(storage)@.has_change(t) ==> t <= topoheight,
        // entries at or below the reorg point are kept untouched
        reorg_detected(old(storage)@, topoheight, block_hash) ==> forall|x: u64|
            old(storage)@.has_tx(x) && old(storage)@.tx_at(x).topoheight <= topoheight - 1
                ==> #[trigger] final(storage)@.has_tx(x) && final(storage)@.tx_at(x) == old(storage)@.tx_at(x),
        // no entry above the reorg point remains unless the re-processing
        // of the newly ordered block put it back
        reorg_detected(old(storage)@, topoheight, block_hash) ==> forall|x: u64|
            #[trigger] final(storage)@.has_tx(x) ==> (old(storage)@.has_tx(x) && old(storage)@.tx_at(x).topoheight <= topoheight - 1 && final(storage)@.tx_at(x)
                == old(storage)@.tx_at(x)) || block_relevant_hash(
                daemon.blocks@[topoheight as int],
                address,
                x,
            ),
        // the head pointer is lowered onto the reorg point when it lay above
        reorg_detected(old(storage)@, topoheight, block_hash) ==> final(storage)@.synced_topoheight == (if old(storage)@.synced_topoheight > topoheight {
            topoheight
        } else {
            old(storage)@.synced_topoheight
        }) && final(storage)@.top_block_hash == (if old(storage)@.synced_topoheight
            > topoheight {
            Option::Some(block_hash)
        } else {
            old(storage)@.top_block_hash
        }),
        // the nonce is untouched by a reorg
        final(storage)@.nonce == old(storage)@.nonce,
        // only new-transaction events may be appended
        old(events)@.is_prefix_of(final(events)@),
        forall|k: int|
            old(events)@.len() <= k < final(events)@.len() ==> (#[trigger] final(events)@[
                k
            ] is NewTransaction),
        final(storage)@ == (StorageV {
            txs: final(storage)@.txs,
            changes: final(storage)@.changes,
            synced_topoheight: final(storage)@.synced_topoheight,
            top_block_hash: final(storage)@.top_block_hash,
            ..old(storage)@
        }),
{
    let ghost st0 = storage@;
    let ghost ev0 = events@;
    let mut process = false;
    let local = storage.get_block_hash_for_topoheight(topoheight);
    if let Option::Some(hash) = local {
        if topoheight != 0 && hash != block_hash {
            // a reorg: markers and transaction entries above the reordered
            // point are abandoned; the re-scan below may restore what the
            // newly ordered block still carries
            storage.delete_changes_above_topoheight(topoheight - 1);
            let ghost st_ch = storage@;
            proof {
                assert(storage@.txs == st0.txs);
                crate::storage::lemma_same_txs(st0, storage@);
            }
            storage.delete_transactions_above_topoheight(topoheight - 1);
            let ghost st_del = storage@;
            let synced = storage.get_synced_topoheight();
            if synced > topoheight {
                storage.set_synced_topoheight(topoheight);
                storage.set_top_block_hash(block_hash);
            }
            proof {
                assert(storage@.changes == st_ch.changes && storage@.txs == st_del.txs);
                crate::storage::lemma_same_changes(st_ch, storage@);
                crate::storage::lemma_same_txs(st_del, storage@);
            }
            process = true;
        }
    }
    proof {
        if !reorg_detected(st0, topoheight, block_hash) {
            assert(!process);
            assert(storage@ == st0);
        }
    }
    let ghost st1 = storage@;
    proof {
        if process {
            assert forall|x: u64|
                st0.has_tx(x) && st0.tx_at(x).topoheight <= topoheight - 1
                    implies #[trigger] st1.has_tx(x) && st1.tx_at(x) == st0.tx_at(x) by {}
            assert forall|x: u64| #[trigger] st1.has_tx(x) implies st0.has_tx(x)
                && st0.tx_at(x).topoheight <= topoheight - 1 && st1.tx_at(x) == st0.tx_at(
                x,
            ) by {}
        }
    }
    if process {
        // the reordered block may hold transactions executed only now
        let block = daemon.get_block_at_topoheight(topoheight);
        let res = process_block(storage, daemon, address, mainnet, block, topoheight, events);
        proof {
            assert(block.miner_mainnet == daemon.mainnet);
        }
        if let Result::Err(e) = res {
            proof {
                assert(false);
            }
            return Result::Err(e);
        }
        proof {
            assert forall|t: u64| #[trigger] storage@.has_change(t) implies t
                <= topoheight by {
                if t != topoheight {
                    assert(storage@.has_change(t) == st1.has_change(t));
                    assert(st1.has_change(t));
                }
            }
            assert forall|x: u64|
                st0.has_tx(x) && st0.tx_at(x).topoheight <= topoheight - 1
                    implies #[trigger] storage@.has_tx(x) && storage@.tx_at(x) == st0.tx_at(
                    x,
                ) by {
                assert(st1.has_tx(x) && st1.tx_at(x) == st0.tx_at(x));
            }
            assert forall|x: u64| #[trigger] storage@.has_tx(x) implies (st0.has_tx(x)
                && st0.tx_at(x).topoheight <= topoheight - 1 && storage@.tx_at(x) == st0.tx_at(
                x,
            )) || block_relevant_hash(daemon.blocks@[topoheight as int], address, x) by {
                if st1.has_tx(x) {
                    assert(storage@.tx_at(x) == st1.tx_at(x));
                } else {
                    assert(block_relevant_hash(*block, address, x));
                }
            }
            assert(ev0.is_prefix_of(events@)) by {
                assert(ev0 =~= events@.subrange(0, ev0.len() as int));
            }
        }
    }
    Result::Ok(())
}

/// The supervisor's `transaction_orphaned` decision: an orphaned
/// transaction leaves the ledger, and a matching tx cache entry is cleared.
pub fn handle_transaction_orphaned(storage: &mut Storage, tx_hash: u64)
    requires
        old(storage)@.wf(),
    ensures
        final(storage)@.wf(),
        !final(storage)@.has_tx(tx_hash),
        forall|x: u64| x != tx_hash ==> final(storage)@.has_tx(x) == old(storage)@.has_tx(x),
        forall|x: u64|
            x != tx_hash && final(storage)@.has_tx(x) ==> final(storage)@.tx_at(x) == old(storage)@.tx_at(x),
        final(storage)@.tx_cache == (if old(storage)@.tx_cache == Option::Some(tx_hash) {
            Option::<u64>::None
        } else {
            old(storage)@.tx_cache
        }),
        final(storage)@ == (StorageV {
            txs: final(storage)@.txs,
            tx_cache: final(storage)@.tx_cache,
            ..old(storage)@
        }),
{
    if storage.has_transaction(tx_hash) {
        storage.delete_transaction(tx_hash);
    }
    match storage.get_tx_cache() {
        Option::Some(cached) => {
            if cached == tx_hash {
                storage.clear_tx_cache();
            }
        },
        Option::None => {},
    }
}

} // verus!
