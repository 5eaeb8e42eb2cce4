//! The Asset Balance Walker: walk the daemon's per-asset balance-version
//! chain backward from the tip, processing the block at each topoheight
//! that carries a balance change, until reaching the wallet's last synced
//! point.
//!
//! Only the first (newest) version may update head state — the stored nonce
//! and balance; older versions are walked solely to discover transaction
//! history.

use vstd::prelude::*;
use crate::model::{Event, NetworkError, nonce_mono};
use crate::storage::{Storage, StorageV};
use crate::daemon::DaemonState;
use crate::processor::{process_block, block_relevant_hash, wallet_relevant_hash};

verus! {

/// Whether the ledger `b` extends ledger `a` without disturbing it: grown
/// transactions, kept changes markers, a nonce that did not decrease, and
/// every other field untouched but the balance of `asset`.
pub open spec fn walk_extends(a: StorageV, b: StorageV, asset: u64) -> bool {
    &&& a.txs.is_prefix_of(b.txs)
    &&& forall|t: u64| #[trigger] a.has_change(t) ==> b.has_change(t)
    &&& nonce_mono(a.nonce, b.nonce)
    &&& forall|x: u64|
        x != asset ==> b.has_balance(x) == a.has_balance(x) && (a.has_balance(x)
            ==> b.balance_at(x) == a.balance_at(x))
    &&& b == (StorageV {
        txs: b.txs,
        changes: b.changes,
        nonce: b.nonce,
        balances: b.balances,
        ..a
    })
}

/// Only sync events may be appended: new transactions and balance changes.
pub open spec fn walk_events_ok(a: Seq<Event>, b: Seq<Event>) -> bool {
    &&& a.is_prefix_of(b)
    &&& forall|k: int|
        a.len() <= k < b.len() ==> (#[trigger] b[k] is NewTransaction || b[k] is BalanceChanged)
}

/// The block at a topoheight has been scanned into the ledger: its
/// coinbase is stored when the wallet mined it, and so is every
/// transaction that yields an entry for the wallet and resolves to an
/// executor.
pub open spec fn topo_scanned(d: DaemonState, topo: u64, addr: u64, st: StorageV) -> bool {
    &&& (crate::processor::coinbase_relevant(d.blocks@[topo as int], addr) ==> st.has_tx(
        d.blocks@[topo as int].hash,
    ))
    &&& forall|j: int|
        0 <= j < d.blocks@[topo as int].transactions@.len() && crate::processor::spec_tx_entry(
            #[trigger] d.blocks@[topo as int].transactions@[j],
            addr,
        ) is Some && crate::processor::resolved_topo(
            d,
            d.blocks@[topo as int].transactions@[j].hash,
            d.blocks@[topo as int].hash,
            topo,
        ) is Some ==> st.has_tx(d.blocks@[topo as int].transactions@[j].hash)
}

/// One block-processing step, seen at the granularity the walker needs:
/// transactions grow, changes markers are kept, nothing else moves.
fn process_block_step(
    storage: &mut Storage,
    daemon: &DaemonState,
    address: u64,
    mainnet: bool,
    block: &crate::daemon::BlockResponse,
    topoheight: u64,
    events: &mut Vec<Event>,
) -> (r: Result<Option<(Vec<u64>, Option<u64>)>, NetworkError>)
    requires
        old(storage)@.wf(),
        daemon.wf(),
        DaemonState::block_wf(*block),
    ensures
        final(storage)@.wf(),
        old(storage)@.txs.is_prefix_of(final(storage)@.txs),
        forall|t: u64| #[trigger] old(storage)@.has_change(t) ==> final(storage)@.has_change(t),
        final(storage)@ == (StorageV {
            txs: final(storage)@.txs,
            changes: final(storage)@.changes,
            ..old(storage)@
        }),
        old(events)@.is_prefix_of(final(events)@),
        forall|k: int|
            old(events)@.len() <= k < final(events)@.len() ==> (#[trigger] final(events)@[
                k
            ] is NewTransaction),
        forall|x: u64|
            final(storage)@.has_tx(x) && !old(storage)@.has_tx(x)
                ==> #[trigger] block_relevant_hash(*block, address, x),
        (r is Ok && *block == daemon.blocks@[topoheight as int] && topoheight
            <= daemon.topoheight) ==> topo_scanned(*daemon, topoheight, address, final(storage)@),
        r is Err ==> block.miner_mainnet != mainnet && final(storage)@ == old(storage)@
            && final(events)@ == old(events)@,
{
    let ghost st0 = storage@;
    let ghost ev0 = events@;
    let r = process_block(storage, daemon, address, mainnet, block, topoheight, events);
    proof {
        if !(r is Err) {
            crate::processor::lemma_scan_persists(
                *daemon,
                *block,
                address,
                topoheight,
                st0,
                storage@,
            );
            let added = crate::processor::block_added_hashes(
                *daemon,
                *block,
                address,
                topoheight,
                st0,
            );
            assert(events@ == ev0 + added.map_values(|h: u64| Event::NewTransaction { hash: h }));
            assert(ev0.is_prefix_of(events@)) by {
                assert(ev0 =~= events@.subrange(0, ev0.len() as int));
            }
            assert forall|k: int| ev0.len() <= k < events@.len() implies (#[trigger] events@[
                k
            ] is NewTransaction) by {
                assert(events@[k] == added.map_values(|h: u64| Event::NewTransaction { hash: h })[
                    k - ev0.len()
                ]);
            }
            assert forall|t: u64| #[trigger] st0.has_change(t) implies storage@.has_change(
                t,
            ) by {
                if added.len() > 0 {
                    if t != topoheight {
                        assert(storage@.has_change(t) == st0.has_change(t));
                    }
                } else {
                    assert(storage@ == st0);
                }
            }
        }
    }
    r
}

/// Scan the chain using one asset's balance versions, processing each not
/// yet processed topoheight above `min_topoheight`. With `balances` set,
/// the first version may also refresh the stored nonce and this asset's
/// balance record.
#[verifier::rlimit(100)]
#[verifier::spinoff_prover]
pub fn get_balance_and_transactions(
    storage: &mut Storage,
    daemon: &DaemonState,
    address: u64,
    mainnet: bool,
    processed: &mut Vec<u64>,
    asset: u64,
    min_topoheight: u64,
    balances: bool,
    highest_nonce: &mut Option<u64>,
    events: &mut Vec<Event>,
) -> (r: Result<(), NetworkError>)
    requires
        old(storage)@.wf(),
        daemon.wf(),
        mainnet == daemon.mainnet,
        *old(highest_nonce) matches Option::Some(h) ==> old(storage)@.nonce
            == Option::Some(h),
    ensures
        final(storage)@.wf(),
        walk_extends(old(storage)@, final(storage)@, asset),
        walk_events_ok(old(events)@, final(events)@),
        // the walk fails only when it must seed the nonce tracker and no
        // nonce is stored
        (balances ==> (*old(highest_nonce) is Some || old(storage)@.nonce is Some)) ==> r
            is Ok,
        // each topoheight processed in this call had its block scanned in
        forall|t: u64| #![trigger final(processed)@.contains(t)]
            (final(processed)@.contains(t) && !old(processed)@.contains(t) ==> t
                <= daemon.topoheight && topo_scanned(*daemon, t, address, final(storage)@)),
        // what earlier walks of this pass scanned in stays scanned in
        forall|t: u64| #![trigger old(processed)@.contains(t)]
            (old(processed)@.contains(t) && topo_scanned(*daemon, t, address, old(storage)@)
                ==> topo_scanned(*daemon, t, address, final(storage)@)),
        // on success every chain version above the floor was processed
        (r is Ok && daemon.has_chain(asset)) ==> forall|i: int|
            0 <= i < daemon.chain_of(asset).len() && daemon.chain_of(asset)[i].topoheight
                > min_topoheight ==> final(processed)@.contains(
                #[trigger] daemon.chain_of(asset)[i].topoheight,
            ),
        // every newly stored hash is justified by a daemon block's
        // relevant content
        forall|x: u64|
            final(storage)@.has_tx(x) && !old(storage)@.has_tx(x)
                ==> #[trigger] wallet_relevant_hash(*daemon, address, x),
        *final(highest_nonce) matches Option::Some(h) ==> final(storage)@.nonce
            == Option::Some(h),
        old(processed)@.is_prefix_of(final(processed)@),
        // nothing to do: the asset has no chain, or its newest version is
        // not above the floor
        (!daemon.has_chain(asset) || daemon.chain_of(asset)[0].topoheight <= min_topoheight)
            ==> final(storage)@ == old(storage)@ && final(events)@ == old(events)@ && final(processed)@ == old(processed)@ && *final(highest_nonce) == *old(highest_nonce),
{
    let chain = match daemon.get_balance(asset) {
        Option::Some(c) => c,
        Option::None => {
            return Result::Ok(());
        },
    };
    proof {
        let ci = daemon.chain_ix(asset);
        assert(DaemonState::chain_wf(daemon.chains@[ci].versions@, daemon.topoheight));
    }
    let tip = chain.versions[0];
    if min_topoheight >= tip.topoheight {
        proof {
            assert forall|i: int|
                0 <= i < daemon.chain_of(asset).len() implies daemon.chain_of(
                asset,
            )[i].topoheight <= min_topoheight by {
                if i > 0 {
                    DaemonState::lemma_chain_descending(
                        chain.versions@,
                        daemon.topoheight,
                        0,
                        i,
                    );
                }
            }
        }
        return Result::Ok(());
    }

    let ghost st0 = storage@;
    let ghost ev0 = events@;
    let n = chain.versions.len();
    let mut i: usize = 0;
    let mut done = false;
    while !done
        invariant
            st0 == old(storage)@,
            ev0 == old(events)@,
            st0.wf(),
            storage@.wf(),
            daemon.wf(),
            mainnet == daemon.mainnet,
            daemon.has_chain(asset),
            daemon.chain_of(asset)[0].topoheight > min_topoheight,
            chain.versions@ == daemon.chain_of(asset),
            DaemonState::chain_wf(chain.versions@, daemon.topoheight),
            n == chain.versions@.len(),
            i < n,
            chain.versions@[i as int].topoheight <= daemon.topoheight,
            walk_extends(st0, storage@, asset),
            walk_events_ok(ev0, events@),
            forall|x: u64|
                storage@.has_tx(x) && !st0.has_tx(x) ==> #[trigger] wallet_relevant_hash(
                    *daemon,
                    address,
                    x,
                ),
            *highest_nonce matches Option::Some(h) ==> storage@.nonce == Option::Some(h),
            *old(highest_nonce) matches Option::Some(h) ==> st0.nonce == Option::Some(h),
            old(processed)@.is_prefix_of(processed@),
            forall|t: u64| #![trigger old(processed)@.contains(t)]
                (processed@.contains(t) && !old(processed)@.contains(t) ==> t
                    <= daemon.topoheight && topo_scanned(*daemon, t, address, storage@)),
            forall|t: u64| #![trigger old(processed)@.contains(t)]
                (old(processed)@.contains(t) && topo_scanned(*daemon, t, address, st0)
                    ==> topo_scanned(*daemon, t, address, storage@)),
            forall|j: int|
                0 <= j < i ==> processed@.contains(
                    #[trigger] chain.versions@[j].topoheight,
                ),
            done ==> processed@.contains(chain.versions@[i as int].topoheight) && (i + 1 == n
                || chain.versions@[i as int + 1].topoheight <= min_topoheight),
        decreases n - i + (if done { 0int } else { 1 }),
    {
        let ghost st_head = storage@;
        let ghost mut st_step = storage@;
        let ghost processed_head = processed@;
        let v = chain.versions[i];
        let already = vec_contains(processed, v.topoheight);
        if !already {
            processed.push(v.topoheight);
            proof {
                assert(old(processed)@.is_prefix_of(processed@)) by {
                    assert(old(processed)@ =~= processed@.subrange(
                        0,
                        old(processed)@.len() as int,
                    ));
                }
                assert forall|t: u64| processed_head.contains(t) implies processed@.contains(
                    t,
                ) by {
                    let k = choose|k: int|
                        0 <= k < processed_head.len() && processed_head[k] == t;
                    assert(processed@[k] == t);
                }
                assert(processed@[processed@.len() - 1] == v.topoheight);
                assert(processed@.contains(v.topoheight));
                assert forall|t: u64| processed@.contains(t)
                    implies processed_head.contains(t) || t == v.topoheight by {
                    let k = choose|k: int| 0 <= k < processed@.len() && processed@[k] == t;
                    if k < processed_head.len() {
                        assert(processed_head[k] == t);
                    }
                }
            }
            let block = daemon.get_block_at_topoheight(v.topoheight);
            let ghost pre = storage@;
            let ghost evpre = events@;
            let changes = match process_block_step(
                storage,
                daemon,
                address,
                mainnet,
                block,
                v.topoheight,
                events,
            ) {
                Result::Ok(c) => c,
                Result::Err(e) => {
                    // cannot happen: the block is the daemon's, so its miner
                    // is on the shared network
                    proof {
                        assert(block.miner_mainnet == daemon.mainnet);
                        assert(false);
                    }
                    return Result::Err(e);
                },
            };
            proof {
                st_step = storage@;
                lemma_walk_step(st0, pre, storage@, asset);
                lemma_walk_events_step(ev0, evpre, events@);
                assert forall|x: u64|
                    storage@.has_tx(x) && !st0.has_tx(x) implies #[trigger] wallet_relevant_hash(
                    *daemon,
                    address,
                    x,
                ) by {
                    if !pre.has_tx(x) {
                        assert(block_relevant_hash(*block, address, x));
                        assert(*block == daemon.blocks@[v.topoheight as int]);
                    }
                }
            }
            if let Option::Some(changes_pair) = changes {
                if balances && i == 0 {
                    // only the newest version updates head state
                    if highest_nonce.is_none() {
                        match storage.get_nonce() {
                            Option::Some(sn) => {
                                *highest_nonce = Option::Some(sn);
                            },
                            Option::None => {
                                proof {
                                    if *old(highest_nonce) is Some || st0.nonce is Some {
                                        assert(storage@.nonce is Some);
                                        assert(false);
                                    }
                                    lemma_scanned_grows(*daemon, address, st_head, storage@);
                                    assert forall|t: u64| #![trigger old(processed)@.contains(t)]
                                        (processed@.contains(t) && !old(processed)@.contains(
                                            t,
                                        ) ==> t <= daemon.topoheight && topo_scanned(
                                            *daemon,
                                            t,
                                            address,
                                            storage@,
                                        )) by {
                                        if processed@.contains(t) && !old(processed)@.contains(
                                            t,
                                        ) {
                                            if t == v.topoheight {
                                                assert(topo_scanned(*daemon, t, address,
                                                    st_step));
                                                assert(storage@ == st_step);
                                            } else {
                                                assert(processed_head.contains(t));
                                                assert(topo_scanned(*daemon, t, address,
                                                    st_head));
                                            }
                                        }
                                    }
                                }
                                return Result::Err(NetworkError::DaemonAPIError);
                            },
                        }
                    }
                    // store only a strictly higher nonce, else a rewind
                    // could break transactions queued in the mempool
                    if let Option::Some(nn) = changes_pair.1 {
                        let update = match *highest_nonce {
                            Option::Some(h) => nn > h,
                            Option::None => true,
                        };
                        if update {
                            let ghost pre2 = storage@;
                            storage.set_nonce(nn);
                            *highest_nonce = Option::Some(nn);
                            proof {
                                lemma_walk_step(st0, pre2, storage@, asset);
                            }
                        }
                    }
                    // refresh the stored balance if the ciphertext moved
                    let stored = storage.get_balance_for(asset);
                    let store = match stored {
                        Option::Some(b) => b.ciphertext != v.ciphertext,
                        Option::None => true,
                    };
                    if store {
                        let plain = match storage.get_unconfirmed_balance_decoded_for(
                            asset,
                            v.ciphertext,
                        ) {
                            Option::Some(p) => p,
                            Option::None => v.plaintext,
                        };
                        let ghost pre3 = storage@;
                        let ghost evpre3 = events@;
                        storage.set_balance_for(asset, plain, v.ciphertext);
                        events.push(Event::BalanceChanged { asset, balance: plain });
                        proof {
                            lemma_walk_step(st0, pre3, storage@, asset);
                            lemma_walk_events_step(ev0, evpre3, events@);
                        }
                    }
                }
            }
        }
        proof {
            // the scanned-in record of every processed topoheight survives
            // this iteration's writes
            assert(st_head.txs.is_prefix_of(storage@.txs)) by {
                assert(st_head.txs =~= storage@.txs.subrange(0, st_head.txs.len() as int));
            }
            lemma_scanned_grows(*daemon, address, st_head, storage@);
            assert(st_step.txs.is_prefix_of(storage@.txs)) by {
                assert(st_step.txs =~= storage@.txs.subrange(0, st_step.txs.len() as int));
            }
            lemma_scanned_grows(*daemon, address, st_step, storage@);
            assert forall|t: u64| #![trigger old(processed)@.contains(t)]
                (processed@.contains(t) && !old(processed)@.contains(t) ==> t
                    <= daemon.topoheight && topo_scanned(*daemon, t, address, storage@)) by {
                if processed@.contains(t) && !old(processed)@.contains(t) {
                    if !processed_head.contains(t) {
                        assert(t == v.topoheight);
                        assert(topo_scanned(*daemon, t, address, st_step));
                    } else {
                        assert(topo_scanned(*daemon, t, address, st_head));
                    }
                }
            }
            assert forall|t: u64| #![trigger old(processed)@.contains(t)]
                (old(processed)@.contains(t) && topo_scanned(*daemon, t, address, st0)
                    ==> topo_scanned(*daemon, t, address, storage@)) by {
                if old(processed)@.contains(t) && topo_scanned(*daemon, t, address, st0) {
                    assert(topo_scanned(*daemon, t, address, st_head));
                }
            }
            assert(processed@.contains(v.topoheight));
            assert forall|j: int|
                0 <= j < i implies processed@.contains(
                #[trigger] chain.versions@[j].topoheight,
            ) by {
                assert(processed_head.contains(chain.versions@[j].topoheight));
            }
        }
        // walk to the previous version while it stays above the floor
        match v.previous_topoheight {
            Option::Some(prev) => {
                if prev > min_topoheight {
                    proof {
                        assert(chain.versions@[i as int].previous_topoheight
                            == Option::Some(chain.versions@[i as int + 1].topoheight));
                        assert(chain.versions@[i as int + 1].topoheight < chain.versions@[
                            i as int
                        ].topoheight);
                    }
                    i += 1;
                } else {
                    proof {
                        assert(chain.versions@[i as int].previous_topoheight
                            == Option::Some(chain.versions@[i as int + 1].topoheight));
                    }
                    done = true;
                }
            },
            Option::None => {
                proof {
                    assert(chain.versions@[i as int].previous_topoheight is None);
                    assert(i + 1 == n);
                }
                done = true;
            },
        }
    }
    proof {
        // every version above the floor was visited: beyond the stop
        // point, topoheights only fall
        assert forall|k: int|
            0 <= k < daemon.chain_of(asset).len() && daemon.chain_of(asset)[k].topoheight
                > min_topoheight implies processed@.contains(
            #[trigger] daemon.chain_of(asset)[k].topoheight,
        ) by {
            if k > i {
                if i + 1 < n && k > i + 1 {
                    DaemonState::lemma_chain_descending(
                        chain.versions@,
                        daemon.topoheight,
                        i as int + 1,
                        k,
                    );
                }
                assert(chain.versions@[k].topoheight <= min_topoheight);
            }
        }
    }
    Result::Ok(())
}

/// A scanned-in block stays scanned in when the transaction list only
/// grows.
proof fn lemma_scanned_grows(d: DaemonState, addr: u64, a: StorageV, b: StorageV)
    requires
        a.txs.is_prefix_of(b.txs),
        forall|i: int, j: int| 0 <= i < j < b.txs.len() ==> b.txs[i].hash != b.txs[j].hash,
    ensures
        forall|t: u64|
            #[trigger] topo_scanned(d, t, addr, a) ==> topo_scanned(d, t, addr, b),
{
    crate::storage::lemma_prefix_txs(a, b);
    assert forall|t: u64| #[trigger] topo_scanned(d, t, addr, a) implies topo_scanned(
        d,
        t,
        addr,
        b,
    ) by {
        if crate::processor::coinbase_relevant(d.blocks@[t as int], addr) {
            assert(a.has_tx(d.blocks@[t as int].hash));
        }
        assert forall|j: int|
            0 <= j < d.blocks@[t as int].transactions@.len()
                && crate::processor::spec_tx_entry(
                #[trigger] d.blocks@[t as int].transactions@[j],
                addr,
            ) is Some && crate::processor::resolved_topo(
                d,
                d.blocks@[t as int].transactions@[j].hash,
                d.blocks@[t as int].hash,
                t,
            ) is Some implies b.has_tx(d.blocks@[t as int].transactions@[j].hash) by {
            assert(a.has_tx(d.blocks@[t as int].transactions@[j].hash));
        }
    }
}

/// `walk_extends` composes across one more mutation step.
proof fn lemma_walk_step(a: StorageV, b: StorageV, c: StorageV, asset: u64)
    requires
        walk_extends(a, b, asset),
        walk_extends(b, c, asset),
    ensures
        walk_extends(a, c, asset),
{
    assert(a.txs.is_prefix_of(c.txs)) by {
        assert(a.txs =~= b.txs.subrange(0, a.txs.len() as int));
        assert(b.txs =~= c.txs.subrange(0, b.txs.len() as int));
        assert(a.txs =~= c.txs.subrange(0, a.txs.len() as int));
    }
}

/// `walk_events_ok` composes across one more append step.
proof fn lemma_walk_events_step(a: Seq<Event>, b: Seq<Event>, c: Seq<Event>)
    requires
        walk_events_ok(a, b),
        walk_events_ok(b, c),
    ensures
        walk_events_ok(a, c),
{
    assert(a.is_prefix_of(c)) by {
        assert(a =~= b.subrange(0, a.len() as int));
        assert(b =~= c.subrange(0, b.len() as int));
        assert(a =~= c.subrange(0, a.len() as int));
    }
    assert forall|k: int| a.len() <= k < c.len() implies (#[trigger] c[k] is NewTransaction
        || c[k] is BalanceChanged) by {
        if k < b.len() {
            assert(c[k] == b[k]);
        }
    }
}

/// Whether a topoheight was already processed in this pass.
fn vec_contains(v: &Vec<u64>, x: u64) -> (r: bool)
    ensures
        r == v@.contains(x),
{
    let mut i: usize = 0;
    while i < v.len()
        invariant
            i <= v@.len(),
            forall|j: int| 0 <= j < i ==> v@[j] != x,
        decreases v@.len() - i,
    {
        if v[i] == x {
            proof {
                assert(v@[i as int] == x);
            }
            return true;
        }
        i += 1;
    }
    false
}

/// Walk every known asset's balance chain down to `current_topoheight`.
/// A failing asset is skipped; the others still walk (the next sync pass
/// may pick the failed one up).
pub fn sync_new_blocks(
    storage: &mut Storage,
    daemon: &DaemonState,
    address: u64,
    mainnet: bool,
    current_topoheight: u64,
    balances: bool,
    events: &mut Vec<Event>,
)
    requires
        old(storage)@.wf(),
        daemon.wf(),
        mainnet == daemon.mainnet,
    ensures
        final(storage)@.wf(),
        final(storage)@.txs.len() >= old(storage)@.txs.len(),
        forall|x: u64|
            final(storage)@.has_tx(x) && !old(storage)@.has_tx(x)
                ==> #[trigger] wallet_relevant_hash(*daemon, address, x),
        forall|x: u64|
            #[trigger] old(storage)@.has_tx(x) ==> final(storage)@.has_tx(x) && final(storage)@.tx_at(x) == old(storage)@.tx_at(x),
        forall|t: u64| #[trigger] old(storage)@.has_change(t) ==> final(storage)@.has_change(t),
        nonce_mono(old(storage)@.nonce, final(storage)@.nonce),
        final(storage)@ == (StorageV {
            txs: final(storage)@.txs,
            changes: final(storage)@.changes,
            nonce: final(storage)@.nonce,
            balances: final(storage)@.balances,
            ..old(storage)@
        }),
        walk_events_ok(old(events)@, final(events)@),
        // with a stored nonce (or balances off), every balance version of a
        // known asset above the floor had its block scanned into the ledger
        (old(storage)@.nonce is Some || !balances) ==> forall|a: u64, j: int|
            #![trigger daemon.chain_of(a)[j]]
            (old(storage)@.has_asset(a) && daemon.has_chain(a) && 0 <= j < daemon.chain_of(
                a,
            ).len() && daemon.chain_of(a)[j].topoheight > current_topoheight ==> topo_scanned(
                *daemon,
                daemon.chain_of(a)[j].topoheight,
                address,
                final(storage)@,
            )),
        // nothing above the floor anywhere: a no-op
        (forall|a: u64|
            #[trigger] daemon.has_chain(a) ==> daemon.chain_of(a)[0].topoheight
                <= current_topoheight) ==> final(storage)@ == old(storage)@ && final(events)@
            == old(events)@,
{
    let assets = storage.get_assets();
    let ghost st0 = storage@;
    let ghost ev0 = events@;
    let mut processed: Vec<u64> = Vec::new();
    let mut highest_nonce: Option<u64> = Option::None;
    let n = assets.len();
    let mut i: usize = 0;
    while i < n
        invariant
            st0 == old(storage)@,
            ev0 == old(events)@,
            st0.wf(),
            storage@.wf(),
            daemon.wf(),
            mainnet == daemon.mainnet,
            n == assets@.len(),
            i <= n,
            storage@.txs.len() >= st0.txs.len(),
            st0.txs.is_prefix_of(storage@.txs),
            forall|x: u64|
                storage@.has_tx(x) && !st0.has_tx(x) ==> #[trigger] wallet_relevant_hash(
                    *daemon,
                    address,
                    x,
                ),
            forall|t: u64| #[trigger] st0.has_change(t) ==> storage@.has_change(t),
            nonce_mono(st0.nonce, storage@.nonce),
            storage@ == (StorageV {
                txs: storage@.txs,
                changes: storage@.changes,
                nonce: storage@.nonce,
                balances: storage@.balances,
                ..st0
            }),
            walk_events_ok(ev0, events@),
            highest_nonce matches Option::Some(h) ==> storage@.nonce == Option::Some(h),
            st0.nonce is Some ==> storage@.nonce is Some,
            forall|t: u64| #![trigger processed@.contains(t)]
                (processed@.contains(t) ==> t <= daemon.topoheight && topo_scanned(
                    *daemon,
                    t,
                    address,
                    storage@,
                )),
            (st0.nonce is Some || !balances) ==> forall|k: int, j: int|
                #![trigger daemon.chain_of(assets@[k])[j]]
                (0 <= k < i && daemon.has_chain(assets@[k]) && 0 <= j < daemon.chain_of(
                    assets@[k],
                ).len() && daemon.chain_of(assets@[k])[j].topoheight > current_topoheight
                    ==> processed@.contains(daemon.chain_of(assets@[k])[j].topoheight)),
            (forall|a: u64|
                #[trigger] daemon.has_chain(a) ==> daemon.chain_of(a)[0].topoheight
                    <= current_topoheight) ==> storage@ == st0 && events@ == ev0,
        decreases n - i,
    {
        let asset = assets[i];
        let ghost pre = storage@;
        let ghost evpre = events@;
        let ghost pre_processed = processed@;
        // a failure here only skips this asset
        let res = get_balance_and_transactions(
            storage,
            daemon,
            address,
            mainnet,
            &mut processed,
            asset,
            current_topoheight,
            balances,
            &mut highest_nonce,
            events,
        );
        if let Result::Err(_) = res {
        }
        proof {
            assert forall|t: u64| #![trigger processed@.contains(t)]
                (processed@.contains(t) ==> t <= daemon.topoheight && topo_scanned(
                    *daemon,
                    t,
                    address,
                    storage@,
                )) by {
                if processed@.contains(t) {
                    if pre_processed.contains(t) {
                        assert(topo_scanned(*daemon, t, address, pre));
                    }
                }
            }
            assert forall|t: u64| pre_processed.contains(t) implies processed@.contains(
                t,
            ) by {
                let k = choose|k: int|
                    0 <= k < pre_processed.len() && pre_processed[k] == t;
                assert(pre_processed =~= processed@.subrange(0, pre_processed.len() as int));
                assert(processed@[k] == t);
            }
            if st0.nonce is Some || !balances {
                assert(res is Ok);
                assert forall|k: int, j: int| #![trigger daemon.chain_of(assets@[k])[j]]
                    (0 <= k < i + 1 && daemon.has_chain(assets@[k]) && 0 <= j
                        < daemon.chain_of(assets@[k]).len() && daemon.chain_of(
                        assets@[k],
                    )[j].topoheight > current_topoheight ==> processed@.contains(
                        daemon.chain_of(assets@[k])[j].topoheight,
                    )) by {
                    if 0 <= k < i + 1 && daemon.has_chain(assets@[k]) && 0 <= j
                        < daemon.chain_of(assets@[k]).len() && daemon.chain_of(
                        assets@[k],
                    )[j].topoheight > current_topoheight {
                        if k < i {
                            assert(pre_processed.contains(
                                daemon.chain_of(assets@[k])[j].topoheight,
                            ));
                        } else {
                            assert(assets@[k] == asset);
                        }
                    }
                }
            }
        }
        proof {
            assert(pre.txs.is_prefix_of(storage@.txs));
            assert(st0.txs.is_prefix_of(storage@.txs)) by {
                assert(st0.txs =~= pre.txs.subrange(0, st0.txs.len() as int));
                assert(pre.txs =~= storage@.txs.subrange(0, pre.txs.len() as int));
                assert(st0.txs =~= storage@.txs.subrange(0, st0.txs.len() as int));
            }
            lemma_walk_events_step(ev0, evpre, events@);
            assert forall|t: u64| #[trigger] st0.has_change(t) implies storage@.has_change(
                t,
            ) by {
                assert(pre.has_change(t));
            }
            assert forall|x: u64|
                storage@.has_tx(x) && !st0.has_tx(x) implies #[trigger] wallet_relevant_hash(
                *daemon,
                address,
                x,
            ) by {
                if pre.has_tx(x) {
                } else {
                }
            }
        }
        i += 1;
    }
    proof {
        crate::storage::lemma_prefix_txs(st0, storage@);
        if st0.nonce is Some || !balances {
            assert forall|a: u64, j: int| #![trigger daemon.chain_of(a)[j]]
                (st0.has_asset(a) && daemon.has_chain(a) && 0 <= j < daemon.chain_of(a).len()
                    && daemon.chain_of(a)[j].topoheight > current_topoheight ==> topo_scanned(
                    *daemon,
                    daemon.chain_of(a)[j].topoheight,
                    address,
                    storage@,
                )) by {
                if st0.has_asset(a) && daemon.has_chain(a) && 0 <= j < daemon.chain_of(
                    a,
                ).len() && daemon.chain_of(a)[j].topoheight > current_topoheight {
                    let k = st0.asset_ix(a);
                    assert(0 <= k < st0.assets.len() && st0.assets[k].asset == a);
                    assert(assets@[k] == a);
                    assert(processed@.contains(daemon.chain_of(a)[j].topoheight));
                }
            }
        }
    }
}

} // verus!
