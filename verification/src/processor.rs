//! The Block Processor: scan one block, classify each transaction as
//! coinbase, outgoing, incoming or irrelevant, and persist what concerns the
//! wallet.
//!
//! The spec functions here say exactly which entries a block yields for a
//! given wallet: `spec_tx_entry` is the payload a transaction produces,
//! `block_added_hashes` the hashes the scan persists against a given prior
//! ledger, `block_assets` the assets it reports as changed, and
//! `added_owner_nonce` the highest owner nonce it observes.

use vstd::prelude::*;
use crate::model::{Event, NetworkError, EntryData, EntryDataV, TransactionEntry,
    TransactionEntryV, TransferIn, TransferOut, NATIVE_ASSET};
use crate::storage::{Storage, StorageV, lemma_push_tx};
use crate::daemon::{BlockResponse, DaemonState, RpcTransaction, RpcTransactionType,
    RpcTransfer};

verus! {

/// An owner-side transfer is kept when both ciphertext components
/// decompress (the sender handle is the relevant one).
pub open spec fn sel_out_ok(t: RpcTransfer) -> bool {
    t.commitment_valid && t.sender_handle_valid
}

/// A receiver-side transfer is kept when it is addressed to the wallet and
/// both ciphertext components decompress (the receiver handle is the
/// relevant one).
pub open spec fn sel_in_ok(t: RpcTransfer, addr: u64) -> bool {
    t.destination == addr && t.commitment_valid && t.receiver_handle_valid
}

pub open spec fn out_of(t: RpcTransfer) -> TransferOut {
    TransferOut { destination: t.destination, asset: t.asset, amount: t.amount, extra_data: t.extra_data }
}

pub open spec fn in_of(t: RpcTransfer) -> TransferIn {
    TransferIn { asset: t.asset, amount: t.amount, extra_data: t.extra_data }
}

/// The outgoing transfers an owner-sourced transaction yields, in order;
/// a transfer whose commitment or handle fails to decompress is dropped,
/// its siblings are kept.
pub open spec fn sel_out(ts: Seq<RpcTransfer>) -> Seq<TransferOut>
    decreases ts.len(),
{
    if ts.len() == 0 {
        Seq::empty()
    } else {
        let rest = sel_out(ts.drop_last());
        if sel_out_ok(ts.last()) {
            rest.push(out_of(ts.last()))
        } else {
            rest
        }
    }
}

/// The incoming transfers a foreign transaction yields for the wallet.
pub open spec fn sel_in(ts: Seq<RpcTransfer>, addr: u64) -> Seq<TransferIn>
    decreases ts.len(),
{
    if ts.len() == 0 {
        Seq::empty()
    } else {
        let rest = sel_in(ts.drop_last(), addr);
        if sel_in_ok(ts.last(), addr) {
            rest.push(in_of(ts.last()))
        } else {
            rest
        }
    }
}

/// Assets touched by the kept owner-side transfers.
pub open spec fn out_assets(ts: Seq<RpcTransfer>) -> Set<u64>
    decreases ts.len(),
{
    if ts.len() == 0 {
        Set::empty()
    } else {
        let rest = out_assets(ts.drop_last());
        if sel_out_ok(ts.last()) {
            rest.insert(ts.last().asset)
        } else {
            rest
        }
    }
}

/// Assets touched by the kept receiver-side transfers.
pub open spec fn in_assets(ts: Seq<RpcTransfer>, addr: u64) -> Set<u64>
    decreases ts.len(),
{
    if ts.len() == 0 {
        Set::empty()
    } else {
        let rest = in_assets(ts.drop_last(), addr);
        if sel_in_ok(ts.last(), addr) {
            rest.insert(ts.last().asset)
        } else {
            rest
        }
    }
}

/// The entry payload a transaction yields for the wallet, if any: a Burn
/// only when the wallet sent it, an Outgoing for every owner-sourced
/// transfer transaction, an Incoming when at least one kept transfer is
/// addressed to the wallet.
pub open spec fn spec_tx_entry(tx: RpcTransaction, addr: u64) -> Option<EntryDataV> {
    match tx.data {
        RpcTransactionType::Burn { asset, amount } => if tx.source == addr {
            Option::Some(EntryDataV::Burn { asset, amount })
        } else {
            Option::None
        },
        RpcTransactionType::Transfers { transfers } => if tx.source == addr {
            Option::Some(EntryDataV::Outgoing {
                transfers: sel_out(transfers@),
                fee: tx.fee,
                nonce: tx.nonce,
            })
        } else if sel_in(transfers@, addr).len() > 0 {
            Option::Some(EntryDataV::Incoming { from: tx.source, transfers: sel_in(transfers@, addr) })
        } else {
            Option::None
        },
    }
}

/// Assets a transaction's scan reports as changed. They are recorded while
/// scanning, so they do not depend on what was already stored.
pub open spec fn tx_assets(tx: RpcTransaction, addr: u64) -> Set<u64> {
    match tx.data {
        RpcTransactionType::Burn { asset, amount } => Set::empty(),
        RpcTransactionType::Transfers { transfers } => if tx.source == addr {
            out_assets(transfers@)
        } else {
            in_assets(transfers@, addr)
        },
    }
}

pub open spec fn txs_assets(txs: Seq<RpcTransaction>, addr: u64) -> Set<u64>
    decreases txs.len(),
{
    if txs.len() == 0 {
        Set::empty()
    } else {
        txs_assets(txs.drop_last(), addr).union(tx_assets(txs.last(), addr))
    }
}

/// Whether the wallet mined the block and a reward is attached.
pub open spec fn coinbase_relevant(block: BlockResponse, addr: u64) -> bool {
    block.miner == addr && block.miner_reward is Some
}

/// The assets a whole block's scan reports as changed: the native asset for
/// a coinbase, plus the assets of every kept transfer that concerns the
/// wallet.
pub open spec fn block_assets(block: BlockResponse, addr: u64) -> Set<u64> {
    let cb = if coinbase_relevant(block, addr) {
        Set::empty().insert(NATIVE_ASSET)
    } else {
        Set::empty()
    };
    cb.union(txs_assets(block.transactions@, addr))
}

/// The topoheight under which a candidate transaction is stored: the
/// block's own, when the daemon confirms execution there; else its true
/// executor's; else none, and the transaction is skipped.
pub open spec fn resolved_topo(
    d: DaemonState,
    tx_hash: u64,
    block_hash: u64,
    topoheight: u64,
) -> Option<u64> {
    if d.executed_in(tx_hash, block_hash) {
        Option::Some(topoheight)
    } else if d.has_executor(tx_hash) {
        Option::Some(d.executor_of(tx_hash).topoheight)
    } else {
        Option::None
    }
}

/// Whether the scan persists this transaction: it yields an entry, is not
/// already stored, and its execution can be resolved.
pub open spec fn tx_added(
    d: DaemonState,
    tx: RpcTransaction,
    addr: u64,
    block_hash: u64,
    topoheight: u64,
    st0: StorageV,
) -> bool {
    &&& spec_tx_entry(tx, addr) is Some
    &&& !st0.has_tx(tx.hash)
    &&& resolved_topo(d, tx.hash, block_hash, topoheight) is Some
}

/// Whether the scan persists a coinbase entry (keyed by the block's hash).
pub open spec fn coinbase_added(block: BlockResponse, addr: u64, st0: StorageV) -> bool {
    coinbase_relevant(block, addr) && !st0.has_tx(block.hash)
}

/// Hashes of the transactions the scan persists, in block order.
pub open spec fn added_tx_hashes(
    d: DaemonState,
    txs: Seq<RpcTransaction>,
    addr: u64,
    block_hash: u64,
    topoheight: u64,
    st0: StorageV,
) -> Seq<u64>
    decreases txs.len(),
{
    if txs.len() == 0 {
        Seq::empty()
    } else {
        let rest = added_tx_hashes(d, txs.drop_last(), addr, block_hash, topoheight, st0);
        if tx_added(d, txs.last(), addr, block_hash, topoheight, st0) {
            rest.push(txs.last().hash)
        } else {
            rest
        }
    }
}

/// Everything the scan persists, coinbase entry first, in order.
pub open spec fn block_added_hashes(
    d: DaemonState,
    block: BlockResponse,
    addr: u64,
    topoheight: u64,
    st0: StorageV,
) -> Seq<u64> {
    let cb: Seq<u64> = if coinbase_added(block, addr, st0) {
        Seq::empty().push(block.hash)
    } else {
        Seq::empty()
    };
    cb + added_tx_hashes(d, block.transactions@, addr, block.hash, topoheight, st0)
}

/// The highest nonce among the persisted owner-sourced transactions.
pub open spec fn added_owner_nonce(
    d: DaemonState,
    txs: Seq<RpcTransaction>,
    addr: u64,
    block_hash: u64,
    topoheight: u64,
    st0: StorageV,
) -> Option<u64>
    decreases txs.len(),
{
    if txs.len() == 0 {
        Option::None
    } else {
        let rest = added_owner_nonce(d, txs.drop_last(), addr, block_hash, topoheight, st0);
        let t = txs.last();
        if t.source == addr && tx_added(d, t, addr, block_hash, topoheight, st0) {
            match rest {
                Option::None => Option::Some(t.nonce),
                Option::Some(m) => if t.nonce > m {
                    Option::Some(t.nonce)
                } else {
                    Option::Some(m)
                },
            }
        } else {
            rest
        }
    }
}

/// Every added hash belongs to a transaction of the sequence that the
/// scan really persists (so in particular one that yields an entry).
pub proof fn lemma_added_hashes_member(
    d: DaemonState,
    txs: Seq<RpcTransaction>,
    addr: u64,
    block_hash: u64,
    topoheight: u64,
    st0: StorageV,
)
    ensures
        forall|x: u64|
            added_tx_hashes(d, txs, addr, block_hash, topoheight, st0).contains(x)
                ==> exists|j: int|
                0 <= j < txs.len() && #[trigger] txs[j].hash == x && tx_added(
                    d,
                    txs[j],
                    addr,
                    block_hash,
                    topoheight,
                    st0,
                ),
    decreases txs.len(),
{
    if txs.len() > 0 {
        lemma_added_hashes_member(d, txs.drop_last(), addr, block_hash, topoheight, st0);
        let rest = added_tx_hashes(d, txs.drop_last(), addr, block_hash, topoheight, st0);
        let whole = added_tx_hashes(d, txs, addr, block_hash, topoheight, st0);
        assert forall|x: u64| whole.contains(x) implies exists|j: int|
            0 <= j < txs.len() && #[trigger] txs[j].hash == x && tx_added(
                d,
                txs[j],
                addr,
                block_hash,
                topoheight,
                st0,
            ) by {
            let k = choose|k: int| 0 <= k < whole.len() && whole[k] == x;
            if tx_added(d, txs.last(), addr, block_hash, topoheight, st0) {
                if k < rest.len() {
                    assert(rest.contains(x));
                    let j = choose|j: int|
                        0 <= j < txs.drop_last().len() && #[trigger] txs.drop_last()[j].hash
                            == x && tx_added(
                            d,
                            txs.drop_last()[j],
                            addr,
                            block_hash,
                            topoheight,
                            st0,
                        );
                    assert(txs[j].hash == x && tx_added(d, txs[j], addr, block_hash,
                        topoheight, st0));
                } else {
                    assert(txs[txs.len() - 1].hash == x);
                }
            } else {
                assert(rest.contains(x));
                let j = choose|j: int|
                    0 <= j < txs.drop_last().len() && #[trigger] txs.drop_last()[j].hash == x
                        && tx_added(d, txs.drop_last()[j], addr, block_hash, topoheight, st0);
                assert(txs[j].hash == x && tx_added(d, txs[j], addr, block_hash, topoheight,
                    st0));
            }
        }
    }
}

/// Where a newly stored hash can come from: the block's own hash when the
/// wallet mined it, or a transaction of the block that yields an entry for
/// the wallet. Nothing else is ever persisted by a scan.
pub open spec fn block_relevant_hash(block: BlockResponse, addr: u64, x: u64) -> bool {
    ||| (x == block.hash && coinbase_relevant(block, addr))
    ||| (exists|j: int|
        0 <= j < block.transactions@.len() && #[trigger] block.transactions@[j].hash == x
            && spec_tx_entry(block.transactions@[j], addr) is Some)
}

/// Where a hash stored by a whole pass can come from: some daemon block's
/// relevant content.
pub open spec fn wallet_relevant_hash(d: DaemonState, addr: u64, x: u64) -> bool {
    exists|t: int|
        0 <= t < d.blocks@.len() && #[trigger] block_relevant_hash(d.blocks@[t], addr, x)
}

/// Helper: when no transaction qualifies, nothing is added.
proof fn lemma_added_none(
    d: DaemonState,
    txs: Seq<RpcTransaction>,
    addr: u64,
    block_hash: u64,
    topoheight: u64,
    st0: StorageV,
)
    requires
        forall|j: int|
            0 <= j < txs.len() ==> !tx_added(d, #[trigger] txs[j], addr, block_hash, topoheight,
            st0),
    ensures
        added_tx_hashes(d, txs, addr, block_hash, topoheight, st0).len() == 0,
    decreases txs.len(),
{
    if txs.len() > 0 {
        assert forall|j: int|
            0 <= j < txs.drop_last().len() implies !tx_added(
            d,
            #[trigger] txs.drop_last()[j],
            addr,
            block_hash,
            topoheight,
            st0,
        ) by {
            assert(txs.drop_last()[j] == txs[j]);
        }
        lemma_added_none(d, txs.drop_last(), addr, block_hash, topoheight, st0);
        assert(!tx_added(d, txs.last(), addr, block_hash, topoheight, st0)) by {
            assert(txs[txs.len() - 1] == txs.last());
        }
    }
}

/// Every transaction the spec says is added appears among the added
/// hashes.
pub proof fn lemma_added_hashes_complete(
    d: DaemonState,
    txs: Seq<RpcTransaction>,
    addr: u64,
    block_hash: u64,
    topoheight: u64,
    st0: StorageV,
)
    ensures
        forall|j: int|
            0 <= j < txs.len() && tx_added(d, #[trigger] txs[j], addr, block_hash, topoheight,
            st0) ==> added_tx_hashes(d, txs, addr, block_hash, topoheight, st0).contains(
                txs[j].hash,
            ),
    decreases txs.len(),
{
    if txs.len() > 0 {
        lemma_added_hashes_complete(d, txs.drop_last(), addr, block_hash, topoheight, st0);
        let rest = added_tx_hashes(d, txs.drop_last(), addr, block_hash, topoheight, st0);
        let whole = added_tx_hashes(d, txs, addr, block_hash, topoheight, st0);
        assert forall|j: int|
            0 <= j < txs.len() && tx_added(d, #[trigger] txs[j], addr, block_hash, topoheight,
            st0) implies whole.contains(txs[j].hash) by {
            if j < txs.len() - 1 {
                assert(txs.drop_last()[j] == txs[j]);
                assert(rest.contains(txs[j].hash));
                let k = choose|k: int| 0 <= k < rest.len() && rest[k] == txs[j].hash;
                assert(whole[k] == txs[j].hash);
            } else {
                assert(txs.last() == txs[j]);
                assert(whole[whole.len() - 1] == txs[j].hash);
            }
        }
    }
}

/// Replaying a block whose relevant content is already stored persists
/// nothing: no duplicate transaction entries and no duplicate events.
/// Combined with the contract of `process_block`, whose effects are
/// exactly the added hashes, a replay leaves storage and events unchanged.
pub proof fn lemma_replay_is_noop(
    d: DaemonState,
    block: BlockResponse,
    addr: u64,
    topoheight: u64,
    st: StorageV,
)
    requires
        coinbase_relevant(block, addr) ==> st.has_tx(block.hash),
        forall|j: int|
            0 <= j < block.transactions@.len() && spec_tx_entry(
                #[trigger] block.transactions@[j],
                addr,
            ) is Some ==> st.has_tx(block.transactions@[j].hash),
    ensures
        block_added_hashes(d, block, addr, topoheight, st).len() == 0,
{
    assert forall|j: int|
        0 <= j < block.transactions@.len() implies !tx_added(
        d,
        #[trigger] block.transactions@[j],
        addr,
        block.hash,
        topoheight,
        st,
    ) by {}
    lemma_added_none(d, block.transactions@, addr, block.hash, topoheight, st);
}

/// Processing the same block twice — whether pushed by the supervisor or
/// pulled by the balance walker — persists each relevant transaction once:
/// the second pass, run against any ledger that already holds the first
/// pass's additions, adds nothing.
pub proof fn lemma_reprocess_adds_nothing(
    d: DaemonState,
    block: BlockResponse,
    addr: u64,
    topoheight: u64,
    st0: StorageV,
    st1: StorageV,
)
    requires
        forall|x: u64|
            st1.has_tx(x) <==> (st0.has_tx(x) || block_added_hashes(
                d,
                block,
                addr,
                topoheight,
                st0,
            ).contains(x)),
    ensures
        block_added_hashes(d, block, addr, topoheight, st1).len() == 0,
{
    let added0 = block_added_hashes(d, block, addr, topoheight, st0);
    let hashes0 = added_tx_hashes(d, block.transactions@, addr, block.hash, topoheight, st0);
    let ghost cb: Seq<u64> = if coinbase_added(block, addr, st0) {
        Seq::empty().push(block.hash)
    } else {
        Seq::empty()
    };
    assert(added0 == cb + hashes0);
    if coinbase_relevant(block, addr) {
        assert(st1.has_tx(block.hash)) by {
            if st0.has_tx(block.hash) {
            } else {
                assert(coinbase_added(block, addr, st0));
                assert(added0[0] == block.hash);
                assert(added0.contains(block.hash));
            }
        }
        assert(!coinbase_added(block, addr, st1));
    }
    lemma_added_hashes_complete(d, block.transactions@, addr, block.hash, topoheight, st0);
    assert forall|j: int|
        0 <= j < block.transactions@.len() && spec_tx_entry(
            #[trigger] block.transactions@[j],
            addr,
        ) is Some implies st1.has_tx(block.transactions@[j].hash) || !tx_added(
        d,
        block.transactions@[j],
        addr,
        block.hash,
        topoheight,
        st1,
    ) by {
        let h = block.transactions@[j].hash;
        if !st0.has_tx(h) {
            if resolved_topo(d, h, block.hash, topoheight) is Some {
                assert(tx_added(d, block.transactions@[j], addr, block.hash, topoheight, st0));
                assert(hashes0.contains(h));
                let k = choose|k: int| 0 <= k < hashes0.len() && hashes0[k] == h;
                assert(added0[cb.len() + k] == h);
                assert(added0.contains(h));
                assert(st1.has_tx(h));
            }
        } else {
            assert(st1.has_tx(h));
        }
    }
    assert forall|j: int|
        0 <= j < block.transactions@.len() implies !tx_added(
        d,
        #[trigger] block.transactions@[j],
        addr,
        block.hash,
        topoheight,
        st1,
    ) by {}
    lemma_added_none(d, block.transactions@, addr, block.hash, topoheight, st1);
}

/// What one scan persists, seen from its membership change: the coinbase
/// when the wallet mined the block, and every transaction that yields an
/// entry and resolves to an executor.
pub proof fn lemma_scan_persists(
    d: DaemonState,
    b: BlockResponse,
    addr: u64,
    topoheight: u64,
    st_pre: StorageV,
    st_post: StorageV,
)
    requires
        forall|x: u64|
            st_post.has_tx(x) <==> (st_pre.has_tx(x) || block_added_hashes(
                d,
                b,
                addr,
                topoheight,
                st_pre,
            ).contains(x)),
    ensures
        coinbase_relevant(b, addr) ==> st_post.has_tx(b.hash),
        forall|j: int|
            0 <= j < b.transactions@.len() && spec_tx_entry(
                #[trigger] b.transactions@[j],
                addr,
            ) is Some && resolved_topo(d, b.transactions@[j].hash, b.hash, topoheight) is Some
                ==> st_post.has_tx(b.transactions@[j].hash),
{
    let added = block_added_hashes(d, b, addr, topoheight, st_pre);
    let hashes = added_tx_hashes(d, b.transactions@, addr, b.hash, topoheight, st_pre);
    let cb: Seq<u64> = if coinbase_added(b, addr, st_pre) {
        Seq::empty().push(b.hash)
    } else {
        Seq::empty()
    };
    assert(added == cb + hashes);
    if coinbase_relevant(b, addr) {
        if !st_pre.has_tx(b.hash) {
            assert(coinbase_added(b, addr, st_pre));
            assert(added[0] == b.hash);
            assert(added.contains(b.hash));
        }
    }
    lemma_added_hashes_complete(d, b.transactions@, addr, b.hash, topoheight, st_pre);
    assert forall|j: int|
        0 <= j < b.transactions@.len() && spec_tx_entry(#[trigger] b.transactions@[j], addr)
            is Some && resolved_topo(d, b.transactions@[j].hash, b.hash, topoheight) is Some
            implies st_post.has_tx(b.transactions@[j].hash) by {
        let h = b.transactions@[j].hash;
        if !st_pre.has_tx(h) {
            assert(tx_added(d, b.transactions@[j], addr, b.hash, topoheight, st_pre));
            assert(hashes.contains(h));
            let k = choose|k: int| 0 <= k < hashes.len() && hashes[k] == h;
            assert(added[cb.len() + k] == h);
            assert(added.contains(h));
        }
    }
}

/// Scan one block. Persists the entries the spec functions above describe,
/// marks the topoheight as changed when anything was persisted, emits one
/// `NewTransaction` event per persisted entry, and reports the changed
/// assets together with the successor of the highest observed owner nonce.
#[verifier::rlimit(100)]
#[verifier::spinoff_prover]
pub fn process_block(
    storage: &mut Storage,
    daemon: &DaemonState,
    address: u64,
    mainnet: bool,
    block: &BlockResponse,
    topoheight: u64,
    events: &mut Vec<Event>,
) -> (r: Result<Option<(Vec<u64>, Option<u64>)>, NetworkError>)
    requires
        daemon.wf(),
        old(storage)@.wf(),
        DaemonState::block_wf(*block),
    ensures
        final(storage)@.wf(),
        r is Err <==> block.miner_mainnet != mainnet,
        r is Err ==> r == Result::<Option<(Vec<u64>, Option<u64>)>, NetworkError>::Err(
            NetworkError::NetworkMismatch,
        ) && final(storage)@ == old(storage)@ && final(events)@ == old(events)@,
        r is Ok ==> ({
            let added = block_added_hashes(*daemon, *block, address, topoheight, old(storage)@);
            let cb = coinbase_added(*block, address, old(storage)@);
            &&& forall|x: u64|
                final(storage)@.has_tx(x) <==> (old(storage)@.has_tx(x) || added.contains(x))
            &&& old(storage)@.txs.is_prefix_of(final(storage)@.txs)
            &&& final(storage)@.txs.len() == old(storage)@.txs.len() + added.len()
            &&& forall|x: u64|
                old(storage)@.has_tx(x) ==> final(storage)@.tx_at(x) == old(storage)@.tx_at(x)
            &&& (cb ==> final(storage)@.tx_at(block.hash)@ == (TransactionEntryV {
                hash: block.hash,
                topoheight,
                entry: EntryDataV::Coinbase { reward: block.miner_reward.unwrap() },
            }))
            &&& forall|j: int|
                0 <= j < block.transactions@.len() && tx_added(
                    *daemon,
                    #[trigger] block.transactions@[j],
                    address,
                    block.hash,
                    topoheight,
                    old(storage)@,
                ) ==> final(storage)@.tx_at(block.transactions@[j].hash)@
                    == (TransactionEntryV {
                    hash: block.transactions@[j].hash,
                    topoheight: resolved_topo(
                        *daemon,
                        block.transactions@[j].hash,
                        block.hash,
                        topoheight,
                    ).unwrap(),
                    entry: spec_tx_entry(block.transactions@[j], address).unwrap(),
                })
            &&& (added.len() > 0 ==> final(storage)@.has_change(topoheight)
                && final(storage)@.change_hash(topoheight) == block.hash && (forall|t: u64|
                t != topoheight ==> final(storage)@.has_change(t) == old(storage)@.has_change(
                    t,
                )) && (forall|t: u64|
                t != topoheight && final(storage)@.has_change(t)
                    ==> final(storage)@.change_hash(t) == old(storage)@.change_hash(t)))
            &&& (added.len() == 0 ==> final(storage)@ == old(storage)@)
            &&& forall|x: u64|
                final(storage)@.has_tx(x) && !old(storage)@.has_tx(x)
                    ==> #[trigger] block_relevant_hash(*block, address, x)
            &&& final(storage)@ == (StorageV {
                txs: final(storage)@.txs,
                changes: final(storage)@.changes,
                ..old(storage)@
            })
            &&& final(events)@ == old(events)@ + added.map_values(
                |h: u64| Event::NewTransaction { hash: h },
            )
            &&& match r.unwrap() {
                Option::None => added.len() == 0 || block_assets(*block, address).is_empty(),
                Option::Some(p) => added.len() > 0 && !block_assets(*block, address).is_empty()
                    && (forall|a: u64|
                    p.0@.contains(a) <==> block_assets(*block, address).contains(a))
                    && p.0@.no_duplicates() && p.1 == match added_owner_nonce(
                    *daemon,
                    block.transactions@,
                    address,
                    block.hash,
                    topoheight,
                    old(storage)@,
                ) {
                    Option::None => Option::<u64>::None,
                    Option::Some(n) => Option::Some((n + 1) as u64),
                },
            }
        }),
{
    if block.miner_mainnet != mainnet {
        return Result::Err(NetworkError::NetworkMismatch);
    }
    let ghost st0 = storage@;
    let ghost ev0 = events@;
    let ghost d = *daemon;
    let ghost cb_seq: Seq<u64> = if coinbase_added(*block, address, st0) {
        Seq::empty().push(block.hash)
    } else {
        Seq::empty()
    };
    let ghost cb_assets: Set<u64> = if coinbase_relevant(*block, address) {
        Set::empty().insert(NATIVE_ASSET)
    } else {
        Set::empty()
    };

    let mut assets_changed: Vec<u64> = Vec::new();
    let mut changes_stored = false;

    // coinbase: an entry keyed by the block's own hash
    if block.miner == address {
        if let Option::Some(reward) = block.miner_reward {
            insert_asset(&mut assets_changed, NATIVE_ASSET);
            if !storage.has_transaction(block.hash) {
                let ghost pre = storage@;
                let entry = TransactionEntry {
                    hash: block.hash,
                    topoheight,
                    entry: EntryData::Coinbase { reward },
                };
                storage.save_transaction(entry);
                proof {
                    lemma_push_tx(pre, storage@, entry);
                }
                storage.add_topoheight_to_changes(topoheight, block.hash);
                changes_stored = true;
                events.push(Event::NewTransaction { hash: block.hash });
            }
        }
    }
    proof {
        assert(changes_stored == (cb_seq.len() > 0));
        assert(events@ =~= ev0 + cb_seq.map_values(|h: u64| Event::NewTransaction { hash: h }));
        assert forall|a: u64| assets_changed@.contains(a) implies cb_assets.contains(a) by {}
        assert forall|a: u64| cb_assets.contains(a) implies assets_changed@.contains(a) by {}
        assert(block.transactions@.take(0) =~= Seq::<RpcTransaction>::empty());
        let added0 = cb_seq + added_tx_hashes(
            d,
            block.transactions@.take(0),
            address,
            block.hash,
            topoheight,
            st0,
        );
        assert(added0 =~= cb_seq);
        assert forall|x: u64| cb_seq.contains(x) implies x == block.hash by {
            let k = choose|k: int| 0 <= k < cb_seq.len() && cb_seq[k] == x;
        }
        if coinbase_added(*block, address, st0) {
            assert(cb_seq[0] == block.hash);
            assert(cb_seq.contains(block.hash));
        }
        assert forall|x: u64| storage@.has_tx(x) <==> (st0.has_tx(x) || added0.contains(x))
            by {}
        assert(storage@.txs.len() == st0.txs.len() + added0.len());
        assert(events@ == ev0 + added0.map_values(|h: u64| Event::NewTransaction { hash: h }));
        assert(st0.txs.is_prefix_of(storage@.txs)) by {
            assert(storage@.txs.take(st0.txs.len() as int) =~= st0.txs);
        }
        assert(block.transactions@.take(0).len() == 0);
    }

    let mut our_highest_nonce: Option<u64> = Option::None;
    let txs_n = block.transactions.len();
    let mut ti: usize = 0;
    while ti < txs_n
        invariant
            daemon.wf(),
            d == *daemon,
            DaemonState::block_wf(*block),
            st0.wf(),
            storage@.wf(),
            txs_n == block.transactions@.len(),
            ti <= txs_n,
            cb_seq == (if coinbase_added(*block, address, st0) {
                Seq::<u64>::empty().push(block.hash)
            } else {
                Seq::<u64>::empty()
            }),
            cb_assets == (if coinbase_relevant(*block, address) {
                Set::<u64>::empty().insert(NATIVE_ASSET)
            } else {
                Set::<u64>::empty()
            }),
            ({
                let added = cb_seq + added_tx_hashes(
                    d,
                    block.transactions@.take(ti as int),
                    address,
                    block.hash,
                    topoheight,
                    st0,
                );
                &&& forall|x: u64| storage@.has_tx(x) <==> (st0.has_tx(x) || added.contains(x))
                &&& storage@.txs.len() == st0.txs.len() + added.len()
                &&& changes_stored == (added.len() > 0)
                &&& events@ == ev0 + added.map_values(|h: u64| Event::NewTransaction { hash: h })
            }),
            forall|x: u64| st0.has_tx(x) ==> storage@.tx_at(x) == st0.tx_at(x),
            st0.txs.is_prefix_of(storage@.txs),
            forall|j: int|
                0 <= j < ti && tx_added(
                    d,
                    #[trigger] block.transactions@[j],
                    address,
                    block.hash,
                    topoheight,
                    st0,
                ) ==> storage@.has_tx(block.transactions@[j].hash),
            coinbase_added(*block, address, st0) ==> storage@.tx_at(block.hash)@
                == (TransactionEntryV {
                hash: block.hash,
                topoheight,
                entry: EntryDataV::Coinbase { reward: block.miner_reward.unwrap() },
            }),
            forall|j: int|
                0 <= j < ti && tx_added(
                    d,
                    #[trigger] block.transactions@[j],
                    address,
                    block.hash,
                    topoheight,
                    st0,
                ) ==> storage@.tx_at(block.transactions@[j].hash)@ == (TransactionEntryV {
                    hash: block.transactions@[j].hash,
                    topoheight: resolved_topo(
                        d,
                        block.transactions@[j].hash,
                        block.hash,
                        topoheight,
                    ).unwrap(),
                    entry: spec_tx_entry(block.transactions@[j], address).unwrap(),
                }),
            changes_stored ==> storage@.has_change(topoheight) && storage@.change_hash(
                topoheight,
            ) == block.hash && (forall|t: u64|
                t != topoheight ==> storage@.has_change(t) == st0.has_change(t)) && (forall|
                t: u64,
            |
                t != topoheight && storage@.has_change(t) ==> storage@.change_hash(t)
                    == st0.change_hash(t)),
            !changes_stored ==> storage@.changes == st0.changes,
            storage@ == (StorageV { txs: storage@.txs, changes: storage@.changes, ..st0 }),
            forall|a: u64|
                assets_changed@.contains(a) <==> cb_assets.union(
                    txs_assets(block.transactions@.take(ti as int), address),
                ).contains(a),
            assets_changed@.no_duplicates(),
            our_highest_nonce == added_owner_nonce(
                d,
                block.transactions@.take(ti as int),
                address,
                block.hash,
                topoheight,
                st0,
            ),
            our_highest_nonce matches Option::Some(n) ==> n < u64::MAX,
        decreases txs_n - ti,
    {
        let ghost take_pre = block.transactions@.take(ti as int);
        let ghost take_post = block.transactions@.take(ti as int + 1);
        proof {
            assert(take_post.drop_last() =~= take_pre);
            assert(take_post.last() == block.transactions@[ti as int]);
        }
        let tx = &block.transactions[ti];
        let is_owner = tx.source == address;
        let entry_opt: Option<EntryData> = match &tx.data {
            RpcTransactionType::Burn { asset, amount } => {
                if is_owner {
                    Option::Some(EntryData::Burn { asset: *asset, amount: *amount })
                } else {
                    Option::None
                }
            },
            RpcTransactionType::Transfers { transfers } => {
                let mut transfers_in: Vec<TransferIn> = Vec::new();
                let mut transfers_out: Vec<TransferOut> = Vec::new();
                let tr_n = transfers.len();
                let mut k: usize = 0;
                while k < tr_n
                    invariant
                        tr_n == transfers@.len(),
                        k <= tr_n,
                        is_owner ==> transfers_out@ == sel_out(transfers@.take(k as int)),
                        is_owner ==> transfers_in@.len() == 0,
                        !is_owner ==> transfers_in@ == sel_in(transfers@.take(k as int), address),
                        !is_owner ==> transfers_out@.len() == 0,
                        forall|a: u64|
                            assets_changed@.contains(a) <==> cb_assets.union(
                                txs_assets(take_pre, address),
                            ).union(
                                if is_owner {
                                    out_assets(transfers@.take(k as int))
                                } else {
                                    in_assets(transfers@.take(k as int), address)
                                },
                            ).contains(a),
                        assets_changed@.no_duplicates(),
                    decreases tr_n - k,
                {
                    proof {
                        assert(transfers@.take(k as int + 1).drop_last() =~= transfers@.take(
                            k as int,
                        ));
                        assert(transfers@.take(k as int + 1).last() == transfers@[k as int]);
                    }
                    let tr = &transfers[k];
                    if is_owner || tr.destination == address {
                        // choose the relevant handle for our role
                        let handle_valid = if is_owner {
                            tr.sender_handle_valid
                        } else {
                            tr.receiver_handle_valid
                        };
                        if tr.commitment_valid && handle_valid {
                            // the ciphertext decompresses; its trial
                            // decryption is the transfer's plaintext amount
                            insert_asset(&mut assets_changed, tr.asset);
                            if is_owner {
                                transfers_out.push(TransferOut {
                                    destination: tr.destination,
                                    asset: tr.asset,
                                    amount: tr.amount,
                                    extra_data: tr.extra_data,
                                });
                            } else {
                                transfers_in.push(TransferIn {
                                    asset: tr.asset,
                                    amount: tr.amount,
                                    extra_data: tr.extra_data,
                                });
                            }
                        }
                        // a decompression failure drops this transfer only
                    }
                    k += 1;
                }
                proof {
                    assert(transfers@.take(tr_n as int) =~= transfers@);
                }
                if is_owner {
                    Option::Some(EntryData::Outgoing {
                        transfers: transfers_out,
                        fee: tx.fee,
                        nonce: tx.nonce,
                    })
                } else if transfers_in.len() > 0 {
                    Option::Some(EntryData::Incoming {
                        from: tx.source,
                        transfers: transfers_in,
                    })
                } else {
                    Option::None
                }
            },
        };
        proof {
            assert(txs_assets(take_post, address) =~= txs_assets(take_pre, address).union(
                tx_assets(block.transactions@[ti as int], address),
            ));
            assert forall|a: u64| assets_changed@.contains(a) implies cb_assets.union(
                txs_assets(take_post, address),
            ).contains(a) by {}
            assert forall|a: u64|
                cb_assets.union(txs_assets(take_post, address)).contains(a)
                    implies assets_changed@.contains(a) by {}
            match entry_opt {
                Option::Some(ref e) => {
                    assert(spec_tx_entry(block.transactions@[ti as int], address)
                        == Option::Some(e@));
                },
                Option::None => {
                    assert(spec_tx_entry(block.transactions@[ti as int], address) is None);
                },
            }
        }
        if let Option::Some(entry_data) = entry_opt {
            let is_tx_stored = storage.has_transaction(tx.hash);
            if is_tx_stored {
                // already persisted (or re-scanned after a reorg): skip
                proof {
                    assert(st0.has_tx(tx.hash)) by {
                        let added = cb_seq + added_tx_hashes(
                            d,
                            take_pre,
                            address,
                            block.hash,
                            topoheight,
                            st0,
                        );
                        if added.contains(tx.hash) {
                            lemma_added_hashes_member(
                                d,
                                take_pre,
                                address,
                                block.hash,
                                topoheight,
                                st0,
                            );
                            let p = choose|p: int| 0 <= p < added.len() && added[p] == tx.hash;
                            if coinbase_added(*block, address, st0) && p == 0 {
                                assert(block.transactions@[ti as int].hash != block.hash);
                            } else {
                                let q = p - cb_seq.len();
                                assert(added_tx_hashes(
                                    d,
                                    take_pre,
                                    address,
                                    block.hash,
                                    topoheight,
                                    st0,
                                ).contains(tx.hash));
                                let j = choose|j: int|
                                    0 <= j < take_pre.len() && #[trigger] take_pre[j].hash
                                        == tx.hash;
                                assert(block.transactions@[j].hash
                                    == block.transactions@[ti as int].hash);
                            }
                        }
                    }
                    assert(!tx_added(
                        d,
                        block.transactions@[ti as int],
                        address,
                        block.hash,
                        topoheight,
                        st0,
                    ));
                }
            } else {
                proof {
                    assert(!st0.has_tx(tx.hash));
                }
                let mut tx_topoheight = topoheight;
                let mut skip = false;
                if !daemon.is_tx_executed_in_block(tx.hash, block.hash) {
                    // redirected to its true executor; on failure the
                    // transaction is skipped and may be picked up later
                    match daemon.get_transaction_executor(tx.hash) {
                        Option::Some(executor) => {
                            tx_topoheight = executor.topoheight;
                        },
                        Option::None => {
                            skip = true;
                        },
                    }
                }
                if !skip {
                    proof {
                        assert(resolved_topo(d, tx.hash, block.hash, topoheight)
                            == Option::Some(tx_topoheight));
                        assert(tx_added(
                            d,
                            block.transactions@[ti as int],
                            address,
                            block.hash,
                            topoheight,
                            st0,
                        ));
                    }
                    if is_owner {
                        our_highest_nonce = match our_highest_nonce {
                            Option::Some(n) => if tx.nonce > n {
                                Option::Some(tx.nonce)
                            } else {
                                Option::Some(n)
                            },
                            Option::None => Option::Some(tx.nonce),
                        };
                    }
                    let ghost pre = storage@;
                    let entry = TransactionEntry {
                        hash: tx.hash,
                        topoheight: tx_topoheight,
                        entry: entry_data,
                    };
                    storage.save_transaction(entry);
                    proof {
                        lemma_push_tx(pre, storage@, entry);
                        assert(entry@ == (TransactionEntryV {
                            hash: block.transactions@[ti as int].hash,
                            topoheight: resolved_topo(
                                d,
                                block.transactions@[ti as int].hash,
                                block.hash,
                                topoheight,
                            ).unwrap(),
                            entry: spec_tx_entry(block.transactions@[ti as int], address)
                                .unwrap(),
                        }));
                    }
                    if !changes_stored {
                        storage.add_topoheight_to_changes(topoheight, block.hash);
                        changes_stored = true;
                    }
                    events.push(Event::NewTransaction { hash: tx.hash });
                    proof {
                        let added_pre = cb_seq + added_tx_hashes(
                            d,
                            take_pre,
                            address,
                            block.hash,
                            topoheight,
                            st0,
                        );
                        let added_post = cb_seq + added_tx_hashes(
                            d,
                            take_post,
                            address,
                            block.hash,
                            topoheight,
                            st0,
                        );
                        assert(added_post =~= added_pre.push(tx.hash));
                        assert forall|x: u64|
                            added_post.contains(x) <==> (added_pre.contains(x) || x
                                == tx.hash) by {
                            if added_post.contains(x) {
                                let p = choose|p: int|
                                    0 <= p < added_post.len() && added_post[p] == x;
                                if p < added_pre.len() {
                                    assert(added_pre[p] == x);
                                }
                            }
                            if added_pre.contains(x) {
                                let p = choose|p: int|
                                    0 <= p < added_pre.len() && added_pre[p] == x;
                                assert(added_post[p] == x);
                            }
                            assert(added_post[added_post.len() - 1] == tx.hash);
                        }
                        assert(st0.txs.is_prefix_of(storage@.txs)) by {
                            assert(storage@.txs.take(st0.txs.len() as int) =~= pre.txs.take(
                                st0.txs.len() as int,
                            ));
                        }
                        assert forall|j: int|
                            0 <= j < ti + 1 && tx_added(
                                d,
                                #[trigger] block.transactions@[j],
                                address,
                                block.hash,
                                topoheight,
                                st0,
                            ) implies storage@.has_tx(block.transactions@[j].hash) by {
                            if j < ti {
                                assert(pre.has_tx(block.transactions@[j].hash));
                            } else {
                                assert(block.transactions@[ti as int].hash == tx.hash);
                            }
                        }
                        assert(events@ =~= ev0 + added_post.map_values(
                            |h: u64| Event::NewTransaction { hash: h },
                        ));
                        if coinbase_added(*block, address, st0) {
                            assert(added_pre[0] == block.hash);
                            assert(added_pre.contains(block.hash));
                            assert(pre.has_tx(block.hash));
                            assert(block.transactions@[ti as int].hash != block.hash);
                            assert(storage@.tx_at(block.hash) == pre.tx_at(block.hash));
                        }
                        assert(storage@.changes == pre.changes || (storage@.has_change(
                            topoheight,
                        ) && storage@.change_hash(topoheight) == block.hash));
                        assert(storage@.has_change(topoheight) && storage@.change_hash(
                            topoheight,
                        ) == block.hash && (forall|t: u64|
                            t != topoheight ==> storage@.has_change(t) == st0.has_change(t))
                            && (forall|t: u64|
                            t != topoheight && storage@.has_change(t) ==> storage@.change_hash(
                                t,
                            ) == st0.change_hash(t))) by {
                            if storage@.changes == pre.changes {
                                crate::storage::lemma_same_changes(pre, storage@);
                            }
                        }
                        // values of previously added transactions survive
                        assert forall|j: int|
                            0 <= j < ti && tx_added(
                                d,
                                #[trigger] block.transactions@[j],
                                address,
                                block.hash,
                                topoheight,
                                st0,
                            ) implies storage@.tx_at(block.transactions@[j].hash)@
                            == (TransactionEntryV {
                            hash: block.transactions@[j].hash,
                            topoheight: resolved_topo(
                                d,
                                block.transactions@[j].hash,
                                block.hash,
                                topoheight,
                            ).unwrap(),
                            entry: spec_tx_entry(block.transactions@[j], address).unwrap(),
                        }) by {
                            assert(block.transactions@[j].hash != tx.hash);
                            assert(pre.has_tx(block.transactions@[j].hash));
                        }
                    }
                }
            }
        }
        proof {
            // when nothing was persisted for this transaction, the added
            // sequence and nonce tracker are unchanged
            let added_pre = cb_seq + added_tx_hashes(
                d,
                take_pre,
                address,
                block.hash,
                topoheight,
                st0,
            );
            let added_post = cb_seq + added_tx_hashes(
                d,
                take_post,
                address,
                block.hash,
                topoheight,
                st0,
            );
            if !tx_added(d, block.transactions@[ti as int], address, block.hash, topoheight,
                st0) {
                assert(added_post =~= added_pre);
            }
            assert(our_highest_nonce == added_owner_nonce(
                d,
                take_post,
                address,
                block.hash,
                topoheight,
                st0,
            ));
        }
        ti += 1;
    }
    proof {
        assert(block.transactions@.take(txs_n as int) =~= block.transactions@);
        let added = cb_seq + added_tx_hashes(
            d,
            block.transactions@,
            address,
            block.hash,
            topoheight,
            st0,
        );
        lemma_added_hashes_member(d, block.transactions@, address, block.hash, topoheight,
            st0);
        assert forall|x: u64| storage@.has_tx(x) && !st0.has_tx(x)
            implies #[trigger] block_relevant_hash(*block, address, x) by {
            assert(added.contains(x));
            let k = choose|k: int| 0 <= k < added.len() && added[k] == x;
            if coinbase_added(*block, address, st0) && k < cb_seq.len() {
                assert(x == block.hash);
            } else {
                let q = k - cb_seq.len();
                assert(added_tx_hashes(
                    d,
                    block.transactions@,
                    address,
                    block.hash,
                    topoheight,
                    st0,
                )[q] == x);
                assert(added_tx_hashes(
                    d,
                    block.transactions@,
                    address,
                    block.hash,
                    topoheight,
                    st0,
                ).contains(x));
            }
        }
    }

    if !changes_stored || assets_changed.len() == 0 {
        proof {
            let added = block_added_hashes(d, *block, address, topoheight, st0);
            if assets_changed.len() == 0 {
                assert forall|a: u64| !block_assets(*block, address).contains(a) by {
                    if block_assets(*block, address).contains(a) {
                        assert(assets_changed@.contains(a));
                    }
                }
                assert(block_assets(*block, address).is_empty());
            }
            if added.len() == 0 {
                assert(storage@.txs.len() == st0.txs.len());
                assert(storage@.txs =~= st0.txs) by {
                    assert(st0.txs =~= storage@.txs.take(st0.txs.len() as int));
                    assert(storage@.txs.take(st0.txs.len() as int) =~= storage@.txs);
                }
                assert(storage@ =~= st0);
            }
        }
        Result::Ok(Option::None)
    } else {
        let next_nonce = match our_highest_nonce {
            Option::Some(n) => Option::Some(n + 1),
            Option::None => Option::None,
        };
        proof {
            let a0 = assets_changed@[0];
            assert(assets_changed@.contains(a0));
            assert(!block_assets(*block, address).is_empty());
        }
        Result::Ok(Option::Some((assets_changed, next_nonce)))
    }
}

/// Insert an asset identifier unless it is already present.
fn insert_asset(v: &mut Vec<u64>, a: u64)
    requires
        old(v)@.no_duplicates(),
    ensures
        forall|x: u64| final(v)@.contains(x) <==> (old(v)@.contains(x) || x == a),
        final(v)@.no_duplicates(),
{
    let mut i: usize = 0;
    while i < v.len()
        invariant
            old(v)@.no_duplicates(),
            v@ == old(v)@,
            i <= v@.len(),
            forall|j: int| 0 <= j < i ==> v@[j] != a,
        decreases v@.len() - i,
    {
        if v[i] == a {
            proof {
                assert(v@[i as int] == a);
                assert(v@.contains(a));
            }
            return;
        }
        i += 1;
    }
    proof {
        assert(!old(v)@.contains(a));
    }
    v.push(a);
    proof {
        let n = old(v)@.len() as int;
        assert forall|x: u64| v@.contains(x) implies (old(v)@.contains(x) || x == a) by {
            let k = choose|k: int| 0 <= k < v@.len() && v@[k] == x;
            if k < n {
                assert(old(v)@[k] == x);
            }
        }
        assert forall|x: u64| old(v)@.contains(x) implies v@.contains(x) by {
            let k = choose|k: int| 0 <= k < old(v)@.len() && old(v)@[k] == x;
            assert(v@[k] == x);
        }
        assert(v@[n] == a);
        assert(v@.contains(a));
        assert forall|j1: int, j2: int| 0 <= j1 < j2 < v@.len() implies v@[j1] != v@[j2] by {
            if j2 < n {
            } else {
                assert(v@[j2] == a);
                if old(v)@[j1] == a {
                    assert(old(v)@.contains(a));
                }
            }
        }
    }
}

} // verus!
