//! The wallet's ledger: an in-memory realization of the storage contract the
//! sync core relies on.
//!
//! Every collection is an association list with distinct keys; `StorageV`
//! is its mathematical shape. Well-formedness (`StorageV::wf`) states in
//! particular that no transaction hash is ever stored twice; every operation
//! preserves it.

use vstd::prelude::*;
use crate::model::TransactionEntry;

verus! {

/// One `(topoheight, block_hash)` marker of the "changes" index.
#[derive(Debug, Clone, Copy, PartialEq, Eq)]
pub struct ChangeEntry {
    pub topoheight: u64,
    pub block_hash: u64,
}

/// Metadata of a known asset.
#[derive(Debug, Clone, Copy, PartialEq, Eq)]
pub struct AssetEntry {
    pub asset: u64,
    pub decimals: u8,
}

/// A per-asset balance record; the ciphertext is authoritative, the
/// plaintext is a cached decryption of it.
#[derive(Debug, Clone, Copy, PartialEq, Eq)]
pub struct BalanceEntry {
    pub asset: u64,
    pub plaintext: u64,
    pub ciphertext: u64,
}

/// A cached decryption of a not-yet-confirmed balance ciphertext, keyed by
/// `(asset, ciphertext)`.
#[derive(Debug, Clone, Copy, PartialEq, Eq)]
pub struct UnconfirmedEntry {
    pub asset: u64,
    pub ciphertext: u64,
    pub plaintext: u64,
}

/// Mathematical shape of the whole ledger.
#[verifier::ext_equal]
pub struct StorageV {
    pub txs: Seq<TransactionEntry>,
    pub changes: Seq<ChangeEntry>,
    pub synced_topoheight: u64,
    pub top_block_hash: Option<u64>,
    pub nonce: Option<u64>,
    pub assets: Seq<AssetEntry>,
    pub balances: Seq<BalanceEntry>,
    pub unconfirmed: Seq<UnconfirmedEntry>,
    pub tx_cache: Option<u64>,
}

impl StorageV {
    pub open spec fn has_tx(self, h: u64) -> bool {
        exists|i: int| 0 <= i < self.txs.len() && self.txs[i].hash == h
    }

    pub open spec fn tx_ix(self, h: u64) -> int {
        choose|i: int| 0 <= i < self.txs.len() && self.txs[i].hash == h
    }

    pub open spec fn tx_at(self, h: u64) -> TransactionEntry {
        self.txs[self.tx_ix(h)]
    }

    pub open spec fn has_change(self, t: u64) -> bool {
        exists|i: int| 0 <= i < self.changes.len() && self.changes[i].topoheight == t
    }

    pub open spec fn change_ix(self, t: u64) -> int {
        choose|i: int| 0 <= i < self.changes.len() && self.changes[i].topoheight == t
    }

    pub open spec fn change_hash(self, t: u64) -> u64 {
        self.changes[self.change_ix(t)].block_hash
    }

    pub open spec fn has_asset(self, a: u64) -> bool {
        exists|i: int| 0 <= i < self.assets.len() && self.assets[i].asset == a
    }

    pub open spec fn asset_ix(self, a: u64) -> int {
        choose|i: int| 0 <= i < self.assets.len() && self.assets[i].asset == a
    }

    pub open spec fn asset_decimals(self, a: u64) -> u8 {
        self.assets[self.asset_ix(a)].decimals
    }

    pub open spec fn has_balance(self, a: u64) -> bool {
        exists|i: int| 0 <= i < self.balances.len() && self.balances[i].asset == a
    }

    pub open spec fn balance_ix(self, a: u64) -> int {
        choose|i: int| 0 <= i < self.balances.len() && self.balances[i].asset == a
    }

    pub open spec fn balance_at(self, a: u64) -> BalanceEntry {
        self.balances[self.balance_ix(a)]
    }

    pub open spec fn has_unconf(self, a: u64, ct: u64) -> bool {
        exists|i: int|
            0 <= i < self.unconfirmed.len() && self.unconfirmed[i].asset == a
                && self.unconfirmed[i].ciphertext == ct
    }

    pub open spec fn unconf_ix(self, a: u64, ct: u64) -> int {
        choose|i: int|
            0 <= i < self.unconfirmed.len() && self.unconfirmed[i].asset == a
                && self.unconfirmed[i].ciphertext == ct
    }

    /// The cached plaintext for `(a, ct)`, if any.
    pub open spec fn unconf_plain(self, a: u64, ct: u64) -> Option<u64> {
        if self.has_unconf(a, ct) {
            Option::Some(self.unconfirmed[self.unconf_ix(a, ct)].plaintext)
        } else {
            Option::None
        }
    }

    /// Every association list has distinct keys; in particular no
    /// transaction hash appears in storage more than once.
    pub open spec fn wf(self) -> bool {
        &&& forall|i: int, j: int|
            0 <= i < j < self.txs.len() ==> self.txs[i].hash != self.txs[j].hash
        &&& forall|i: int, j: int|
            0 <= i < j < self.changes.len() ==> self.changes[i].topoheight
                != self.changes[j].topoheight
        &&& forall|i: int, j: int|
            0 <= i < j < self.assets.len() ==> self.assets[i].asset != self.assets[j].asset
        &&& forall|i: int, j: int|
            0 <= i < j < self.balances.len() ==> self.balances[i].asset != self.balances[j].asset
        &&& forall|i: int, j: int|
            0 <= i < j < self.unconfirmed.len() ==> !(self.unconfirmed[i].asset
                == self.unconfirmed[j].asset && self.unconfirmed[i].ciphertext
                == self.unconfirmed[j].ciphertext)
    }

    /// In a well-formed ledger, the record at index `i` is the record its
    /// key looks up.
    pub proof fn lemma_tx_index(self, i: int)
        requires
            self.wf(),
            0 <= i < self.txs.len(),
        ensures
            self.has_tx(self.txs[i].hash),
            self.tx_ix(self.txs[i].hash) == i,
            self.tx_at(self.txs[i].hash) == self.txs[i],
    {
        let h = self.txs[i].hash;
        assert(self.has_tx(h));
        let j = self.tx_ix(h);
        if i < j {
            assert(self.txs[i].hash != self.txs[j].hash);
        } else if j < i {
            assert(self.txs[j].hash != self.txs[i].hash);
        }
    }

    pub proof fn lemma_change_index(self, i: int)
        requires
            self.wf(),
            0 <= i < self.changes.len(),
        ensures
            self.has_change(self.changes[i].topoheight),
            self.change_ix(self.changes[i].topoheight) == i,
            self.change_hash(self.changes[i].topoheight) == self.changes[i].block_hash,
    {
        let t = self.changes[i].topoheight;
        assert(self.has_change(t));
        let j = self.change_ix(t);
        if i < j {
            assert(self.changes[i].topoheight != self.changes[j].topoheight);
        } else if j < i {
            assert(self.changes[j].topoheight != self.changes[i].topoheight);
        }
    }

    pub proof fn lemma_asset_index(self, i: int)
        requires
            self.wf(),
            0 <= i < self.assets.len(),
        ensures
            self.has_asset(self.assets[i].asset),
            self.asset_ix(self.assets[i].asset) == i,
            self.asset_decimals(self.assets[i].asset) == self.assets[i].decimals,
    {
        let a = self.assets[i].asset;
        assert(self.has_asset(a));
        let j = self.asset_ix(a);
        if i < j {
            assert(self.assets[i].asset != self.assets[j].asset);
        } else if j < i {
            assert(self.assets[j].asset != self.assets[i].asset);
        }
    }

    pub proof fn lemma_balance_index(self, i: int)
        requires
            self.wf(),
            0 <= i < self.balances.len(),
        ensures
            self.has_balance(self.balances[i].asset),
            self.balance_ix(self.balances[i].asset) == i,
            self.balance_at(self.balances[i].asset) == self.balances[i],
    {
        let a = self.balances[i].asset;
        assert(self.has_balance(a));
        let j = self.balance_ix(a);
        if i < j {
            assert(self.balances[i].asset != self.balances[j].asset);
        } else if j < i {
            assert(self.balances[j].asset != self.balances[i].asset);
        }
    }

    pub proof fn lemma_unconf_index(self, i: int)
        requires
            self.wf(),
            0 <= i < self.unconfirmed.len(),
        ensures
            self.has_unconf(self.unconfirmed[i].asset, self.unconfirmed[i].ciphertext),
            self.unconf_plain(self.unconfirmed[i].asset, self.unconfirmed[i].ciphertext)
                == Option::Some(self.unconfirmed[i].plaintext),
    {
        let a = self.unconfirmed[i].asset;
        let ct = self.unconfirmed[i].ciphertext;
        assert(self.has_unconf(a, ct));
        let j = self.unconf_ix(a, ct);
        if i < j {
            assert(!(self.unconfirmed[i].asset == self.unconfirmed[j].asset
                && self.unconfirmed[i].ciphertext == self.unconfirmed[j].ciphertext));
        } else if j < i {
            assert(!(self.unconfirmed[j].asset == self.unconfirmed[i].asset
                && self.unconfirmed[j].ciphertext == self.unconfirmed[i].ciphertext));
        }
    }
}

/// Two ledger shapes with the same transaction list agree on transaction
/// membership and lookup.
pub proof fn lemma_same_txs(a: StorageV, b: StorageV)
    requires
        a.txs == b.txs,
        forall|i: int, j: int| 0 <= i < j < a.txs.len() ==> a.txs[i].hash != a.txs[j].hash,
    ensures
        forall|x: u64| a.has_tx(x) == b.has_tx(x),
        forall|x: u64| #[trigger] a.has_tx(x) ==> a.tx_at(x) == b.tx_at(x),
{
    assert forall|x: u64| a.has_tx(x) == b.has_tx(x) by {
        if a.has_tx(x) {
            let k = choose|k: int| 0 <= k < a.txs.len() && a.txs[k].hash == x;
            assert(b.txs[k].hash == x);
        }
        if b.has_tx(x) {
            let k = choose|k: int| 0 <= k < b.txs.len() && b.txs[k].hash == x;
            assert(a.txs[k].hash == x);
        }
    }
    assert forall|x: u64| #[trigger] a.has_tx(x) implies a.tx_at(x) == b.tx_at(x) by {
        let ka = a.tx_ix(x);
        assert(0 <= ka < a.txs.len() && a.txs[ka].hash == x);
        assert(b.has_tx(x));
        let kb = b.tx_ix(x);
        assert(0 <= kb < b.txs.len() && b.txs[kb].hash == x);
        assert(a.txs[kb].hash == x);
        if ka < kb {
            assert(a.txs[ka].hash != a.txs[kb].hash);
        } else if kb < ka {
            assert(a.txs[kb].hash != a.txs[ka].hash);
        }
    }
}

/// Two ledger shapes with the same changes index agree on marker
/// membership and lookup.
pub proof fn lemma_same_changes(a: StorageV, b: StorageV)
    requires
        a.changes == b.changes,
        forall|i: int, j: int|
            0 <= i < j < a.changes.len() ==> a.changes[i].topoheight
                != a.changes[j].topoheight,
    ensures
        forall|t: u64| a.has_change(t) == b.has_change(t),
        forall|t: u64| #[trigger] a.has_change(t) ==> a.change_hash(t) == b.change_hash(t),
{
    assert forall|t: u64| a.has_change(t) == b.has_change(t) by {
        if a.has_change(t) {
            let k = choose|k: int| 0 <= k < a.changes.len() && a.changes[k].topoheight == t;
            assert(b.changes[k].topoheight == t);
        }
        if b.has_change(t) {
            let k = choose|k: int| 0 <= k < b.changes.len() && b.changes[k].topoheight == t;
            assert(a.changes[k].topoheight == t);
        }
    }
    assert forall|t: u64| #[trigger] a.has_change(t) implies a.change_hash(t) == b.change_hash(
        t,
    ) by {
        let ka = a.change_ix(t);
        assert(0 <= ka < a.changes.len() && a.changes[ka].topoheight == t);
        assert(b.has_change(t));
        let kb = b.change_ix(t);
        assert(0 <= kb < b.changes.len() && b.changes[kb].topoheight == t);
        assert(a.changes[kb].topoheight == t);
        if ka < kb {
            assert(a.changes[ka].topoheight != a.changes[kb].topoheight);
        } else if kb < ka {
            assert(a.changes[kb].topoheight != a.changes[ka].topoheight);
        }
    }
}

/// No transaction hash appears in a well-formed ledger more than once:
/// distinct positions never carry the same hash.
pub proof fn lemma_no_duplicate_hashes(st: StorageV, i: int, j: int)
    requires
        st.wf(),
        0 <= i < j < st.txs.len(),
    ensures
        st.txs[i].hash != st.txs[j].hash,
{
}

/// Two ledger shapes with the same balance list agree on balance lookup.
pub proof fn lemma_same_balances(a: StorageV, b: StorageV)
    requires
        a.balances == b.balances,
        forall|i: int, j: int|
            0 <= i < j < a.balances.len() ==> a.balances[i].asset != a.balances[j].asset,
    ensures
        forall|x: u64| a.has_balance(x) == b.has_balance(x),
        forall|x: u64| #[trigger] a.has_balance(x) ==> a.balance_at(x) == b.balance_at(x),
{
    assert forall|x: u64| a.has_balance(x) == b.has_balance(x) by {
        if a.has_balance(x) {
            let k = choose|k: int| 0 <= k < a.balances.len() && a.balances[k].asset == x;
            assert(b.balances[k].asset == x);
        }
        if b.has_balance(x) {
            let k = choose|k: int| 0 <= k < b.balances.len() && b.balances[k].asset == x;
            assert(a.balances[k].asset == x);
        }
    }
    assert forall|x: u64| #[trigger] a.has_balance(x) implies a.balance_at(x) == b.balance_at(
        x,
    ) by {
        let ka = a.balance_ix(x);
        assert(0 <= ka < a.balances.len() && a.balances[ka].asset == x);
        assert(b.has_balance(x));
        let kb = b.balance_ix(x);
        assert(0 <= kb < b.balances.len() && b.balances[kb].asset == x);
        assert(a.balances[kb].asset == x);
        if ka < kb {
            assert(a.balances[ka].asset != a.balances[kb].asset);
        } else if kb < ka {
            assert(a.balances[kb].asset != a.balances[ka].asset);
        }
    }
}

/// Two ledger shapes with the same asset list agree on asset lookup.
pub proof fn lemma_same_assets(a: StorageV, b: StorageV)
    requires
        a.assets == b.assets,
        forall|i: int, j: int|
            0 <= i < j < a.assets.len() ==> a.assets[i].asset != a.assets[j].asset,
    ensures
        forall|x: u64| a.has_asset(x) == b.has_asset(x),
        forall|x: u64| #[trigger] a.has_asset(x) ==> a.asset_decimals(x) == b.asset_decimals(x),
{
    assert forall|x: u64| a.has_asset(x) == b.has_asset(x) by {
        if a.has_asset(x) {
            let k = choose|k: int| 0 <= k < a.assets.len() && a.assets[k].asset == x;
            assert(b.assets[k].asset == x);
        }
        if b.has_asset(x) {
            let k = choose|k: int| 0 <= k < b.assets.len() && b.assets[k].asset == x;
            assert(a.assets[k].asset == x);
        }
    }
    assert forall|x: u64| #[trigger] a.has_asset(x) implies a.asset_decimals(x)
        == b.asset_decimals(x) by {
        let ka = a.asset_ix(x);
        assert(0 <= ka < a.assets.len() && a.assets[ka].asset == x);
        assert(b.has_asset(x));
        let kb = b.asset_ix(x);
        assert(0 <= kb < b.assets.len() && b.assets[kb].asset == x);
        assert(a.assets[kb].asset == x);
        if ka < kb {
            assert(a.assets[ka].asset != a.assets[kb].asset);
        } else if kb < ka {
            assert(a.assets[kb].asset != a.assets[ka].asset);
        }
    }
}

/// Two ledger shapes with the same unconfirmed cache agree on its lookup.
pub proof fn lemma_same_unconf(a: StorageV, b: StorageV)
    requires
        a.unconfirmed == b.unconfirmed,
        forall|i: int, j: int|
            0 <= i < j < a.unconfirmed.len() ==> !(a.unconfirmed[i].asset
                == a.unconfirmed[j].asset && a.unconfirmed[i].ciphertext
                == a.unconfirmed[j].ciphertext),
    ensures
        forall|x: u64, c: u64| a.unconf_plain(x, c) == b.unconf_plain(x, c),
{
    assert forall|x: u64, c: u64| a.unconf_plain(x, c) == b.unconf_plain(x, c) by {
        if a.has_unconf(x, c) {
            let k = a.unconf_ix(x, c);
            assert(0 <= k < a.unconfirmed.len() && a.unconfirmed[k].asset == x
                && a.unconfirmed[k].ciphertext == c);
            assert(b.unconfirmed[k].asset == x && b.unconfirmed[k].ciphertext == c);
            assert(b.has_unconf(x, c));
            let kb = b.unconf_ix(x, c);
            assert(0 <= kb < b.unconfirmed.len() && b.unconfirmed[kb].asset == x
                && b.unconfirmed[kb].ciphertext == c);
            assert(a.unconfirmed[kb].asset == x && a.unconfirmed[kb].ciphertext == c);
            if k < kb {
                assert(!(a.unconfirmed[k].asset == a.unconfirmed[kb].asset
                    && a.unconfirmed[k].ciphertext == a.unconfirmed[kb].ciphertext));
            } else if kb < k {
                assert(!(a.unconfirmed[kb].asset == a.unconfirmed[k].asset
                    && a.unconfirmed[kb].ciphertext == a.unconfirmed[k].ciphertext));
            }
        } else {
            if b.has_unconf(x, c) {
                let kb = choose|kb: int|
                    0 <= kb < b.unconfirmed.len() && b.unconfirmed[kb].asset == x
                        && b.unconfirmed[kb].ciphertext == c;
                assert(a.unconfirmed[kb].asset == x && a.unconfirmed[kb].ciphertext == c);
            }
        }
    }
}

/// A ledger whose transaction list extends another's keeps every stored
/// entry of the smaller one, unchanged.
pub proof fn lemma_prefix_txs(a: StorageV, b: StorageV)
    requires
        a.txs.is_prefix_of(b.txs),
        forall|i: int, j: int| 0 <= i < j < b.txs.len() ==> b.txs[i].hash != b.txs[j].hash,
    ensures
        forall|x: u64| #[trigger] a.has_tx(x) ==> b.has_tx(x) && b.tx_at(x) == a.tx_at(x),
{
    assert forall|k: int| 0 <= k < a.txs.len() implies a.txs[k] == b.txs[k] by {
        assert(a.txs =~= b.txs.subrange(0, a.txs.len() as int));
    }
    assert forall|x: u64| #[trigger] a.has_tx(x) implies b.has_tx(x) && b.tx_at(x)
        == a.tx_at(x) by {
        let ka = a.tx_ix(x);
        assert(0 <= ka < a.txs.len() && a.txs[ka].hash == x);
        assert(b.txs[ka].hash == x);
        assert(b.has_tx(x));
        let kb = b.tx_ix(x);
        assert(0 <= kb < b.txs.len() && b.txs[kb].hash == x);
        if ka < kb {
            assert(b.txs[ka].hash != b.txs[kb].hash);
        } else if kb < ka {
            assert(b.txs[kb].hash != b.txs[ka].hash);
        }
        assert(b.tx_at(x) == b.txs[ka]);
        let ka2 = a.tx_ix(x);
        if ka2 < ka {
            assert(b.txs[ka2].hash != b.txs[ka].hash);
        } else if ka < ka2 {
            assert(b.txs[ka].hash != b.txs[ka2].hash);
        }
    }
}

/// Pushing a record with a fresh hash: what membership and lookup become.
pub proof fn lemma_push_tx(pre: StorageV, post: StorageV, entry: TransactionEntry)
    requires
        pre.wf(),
        !pre.has_tx(entry.hash),
        post.txs == pre.txs.push(entry),
    ensures
        forall|x: u64| post.has_tx(x) <==> (pre.has_tx(x) || x == entry.hash),
        forall|x: u64| x != entry.hash && post.has_tx(x) ==> post.tx_at(x) == pre.tx_at(x),
        post.has_tx(entry.hash),
        post.tx_at(entry.hash) == entry,
{
    let n = pre.txs.len() as int;
    assert(post.txs[n] == entry);
    assert forall|j: int| 0 <= j < n implies #[trigger] post.txs[j] == pre.txs[j] by {}
    assert forall|j: int| 0 <= j < n implies #[trigger] post.txs[j].hash != entry.hash by {
        if post.txs[j].hash == entry.hash {
            assert(pre.txs[j].hash == entry.hash);
            assert(pre.has_tx(entry.hash));
        }
    }
    assert(post.has_tx(entry.hash));
    assert forall|x: u64| post.has_tx(x) implies (pre.has_tx(x) || x == entry.hash) by {
        let k = choose|k: int| 0 <= k < post.txs.len() && post.txs[k].hash == x;
        if k < n {
            assert(pre.txs[k].hash == x);
        }
    }
    assert forall|x: u64| pre.has_tx(x) implies post.has_tx(x) by {
        let k = choose|k: int| 0 <= k < pre.txs.len() && pre.txs[k].hash == x;
        assert(post.txs[k].hash == x);
    }
    assert forall|x: u64| x != entry.hash && post.has_tx(x) implies post.tx_at(x) == pre.tx_at(
        x,
    ) by {
        let k = post.tx_ix(x);
        assert(0 <= k < post.txs.len() && post.txs[k].hash == x);
        assert(k != n);
        assert(pre.txs[k].hash == x);
        assert(pre.has_tx(x));
        let m = pre.tx_ix(x);
        assert(0 <= m < pre.txs.len() && pre.txs[m].hash == x);
        if m < k {
            assert(pre.txs[m].hash != pre.txs[k].hash || m == k);
        } else if k < m {
            assert(pre.txs[k].hash != pre.txs[m].hash || m == k);
        }
        assert(pre.txs[m] == pre.txs[k]);
        // post.tx_ix(x) may pick any index with hash x; all carry the same record
        let k2 = post.tx_ix(x);
        if k2 < n {
            assert(pre.txs[k2].hash == x);
            if m < k2 {
                assert(pre.txs[m].hash != pre.txs[k2].hash || m == k2);
            } else if k2 < m {
                assert(pre.txs[k2].hash != pre.txs[m].hash || m == k2);
            }
        }
    }
    let j = post.tx_ix(entry.hash);
    assert(0 <= j < post.txs.len() && post.txs[j].hash == entry.hash);
    assert(j == n);
}

/// The wallet's persistent state.
#[derive(Debug)]
pub struct Storage {
    txs: Vec<TransactionEntry>,
    changes: Vec<ChangeEntry>,
    synced_topoheight: u64,
    top_block_hash: Option<u64>,
    nonce: Option<u64>,
    assets: Vec<AssetEntry>,
    balances: Vec<BalanceEntry>,
    unconfirmed: Vec<UnconfirmedEntry>,
    tx_cache: Option<u64>,
}

impl View for Storage {
    type V = StorageV;

    closed spec fn view(&self) -> StorageV {
        StorageV {
            txs: self.txs@,
            changes: self.changes@,
            synced_topoheight: self.synced_topoheight,
            top_block_hash: self.top_block_hash,
            nonce: self.nonce,
            assets: self.assets@,
            balances: self.balances@,
            unconfirmed: self.unconfirmed@,
            tx_cache: self.tx_cache,
        }
    }
}

impl Storage {
    /// A fresh wallet: nothing stored, head pointer at topoheight 0.
    pub fn new() -> (r: Self)
        ensures
            r@.wf(),
            r@.txs.len() == 0,
            r@.changes.len() == 0,
            r@.synced_topoheight == 0,
            r@.top_block_hash is None,
            r@.nonce is None,
            r@.assets.len() == 0,
            r@.balances.len() == 0,
            r@.unconfirmed.len() == 0,
            r@.tx_cache is None,
    {
        Storage {
            txs: Vec::new(),
            changes: Vec::new(),
            synced_topoheight: 0,
            top_block_hash: Option::None,
            nonce: Option::None,
            assets: Vec::new(),
            balances: Vec::new(),
            unconfirmed: Vec::new(),
            tx_cache: Option::None,
        }
    }

    // ----- transactions -----

    pub fn has_transaction(&self, hash: u64) -> (r: bool)
        ensures
            r == self@.has_tx(hash),
    {
        let mut i: usize = 0;
        while i < self.txs.len()
            invariant
                i <= self.txs.len(),
                forall|j: int| 0 <= j < i ==> self@.txs[j].hash != hash,
            decreases self.txs.len() - i,
        {
            if self.txs[i].hash == hash {
                proof {
                    assert(self@.txs[i as int].hash == hash);
                }
                return true;
            }
            i += 1;
        }
        false
    }

    /// Read a stored transaction entry.
    pub fn get_transaction(&self, hash: u64) -> (r: Option<&TransactionEntry>)
        requires
            self@.wf(),
        ensures
            r matches Option::Some(e) ==> self@.has_tx(hash) && *e == self@.tx_at(hash),
            r is None ==> !self@.has_tx(hash),
    {
        let mut i: usize = 0;
        while i < self.txs.len()
            invariant
                self@.wf(),
                i <= self.txs.len(),
                forall|j: int| 0 <= j < i ==> self@.txs[j].hash != hash,
            decreases self.txs.len() - i,
        {
            if self.txs[i].hash == hash {
                proof {
                    assert(self@.txs[i as int].hash == hash);
                    self@.lemma_tx_index(i as int);
                }
                return Option::Some(&self.txs[i]);
            }
            i += 1;
        }
        Option::None
    }

    /// Persist a transaction entry. The deduplication gate: the caller must
    /// have checked `has_transaction` first.
    pub fn save_transaction(&mut self, entry: TransactionEntry)
        requires
            old(self)@.wf(),
            !old(self)@.has_tx(entry.hash),
        ensures
            final(self)@.wf(),
            final(self)@.txs == old(self)@.txs.push(entry),
            final(self)@ == (StorageV { txs: final(self)@.txs, ..old(self)@ }),
    {
        self.txs.push(entry);
        proof {
            let n = old(self)@.txs.len() as int;
            assert forall|j: int| 0 <= j < n implies #[trigger] self@.txs[j].hash
                != entry.hash by {
                if self@.txs[j].hash == entry.hash {
                    assert(old(self)@.txs[j].hash == entry.hash);
                    assert(old(self)@.has_tx(entry.hash));
                }
            }
            assert(self@.wf());
        }
    }

    /// Delete the entry with this hash, if stored.
    pub fn delete_transaction(&mut self, hash: u64)
        requires
            old(self)@.wf(),
        ensures
            final(self)@.wf(),
            !final(self)@.has_tx(hash),
            forall|x: u64| x != hash ==> final(self)@.has_tx(x) == old(self)@.has_tx(x),
            forall|x: u64|
                x != hash && final(self)@.has_tx(x) ==> final(self)@.tx_at(x) == old(self)@.tx_at(
                    x,
                ),
            final(self)@ == (StorageV { txs: final(self)@.txs, ..old(self)@ }),
    {
        let mut i: usize = 0;
        while i < self.txs.len()
            invariant
                old(self)@.wf(),
                i <= self.txs.len(),
                self@ == old(self)@,
                forall|j: int| 0 <= j < i ==> self@.txs[j].hash != hash,
            decreases self.txs.len() - i,
        {
            if self.txs[i].hash == hash {
                let ghost pre = self@;
                self.txs.remove(i);
                proof {
                    assert forall|j: int| 0 <= j < self@.txs.len() implies self@.txs[j]
                        == (if j < i { pre.txs[j] } else { pre.txs[j + 1] }) by {
                        pre.txs.remove_ensures(i as int);
                    }
                    assert(self@.wf());
                    assert(!self@.has_tx(hash)) by {
                        if self@.has_tx(hash) {
                            let k = choose|k: int|
                                0 <= k < self@.txs.len() && self@.txs[k].hash == hash;
                            if k < i {
                                assert(pre.txs[k].hash == hash);
                            } else {
                                assert(pre.txs[k + 1].hash == hash);
                            }
                        }
                    }
                    assert forall|x: u64| x != hash implies self@.has_tx(x) == old(self)@.has_tx(
                        x,
                    ) by {
                        if old(self)@.has_tx(x) {
                            let k = old(self)@.tx_ix(x);
                            if k < i {
                                assert(self@.txs[k].hash == x);
                            } else {
                                assert(self@.txs[k - 1] == pre.txs[k]);
                                assert(self@.txs[k - 1].hash == x);
                            }
                        }
                        if self@.has_tx(x) {
                            let k = choose|k: int|
                                0 <= k < self@.txs.len() && self@.txs[k].hash == x;
                            if k < i {
                                assert(pre.txs[k].hash == x);
                            } else {
                                assert(pre.txs[k + 1].hash == x);
                            }
                        }
                    }
                    assert forall|x: u64| x != hash && self@.has_tx(x) implies self@.tx_at(x)
                        == old(self)@.tx_at(x) by {
                        let k = self@.tx_ix(x);
                        assert(0 <= k < self@.txs.len() && self@.txs[k].hash == x);
                        if k < i {
                            old(self)@.lemma_tx_index(k);
                        } else {
                            old(self)@.lemma_tx_index(k + 1);
                        }
                    }
                }
                return;
            }
            i += 1;
        }
    }

    /// Delete every entry whose topoheight is strictly above `h`.
    pub fn delete_transactions_above_topoheight(&mut self, h: u64)
        requires
            old(self)@.wf(),
        ensures
            final(self)@.wf(),
            forall|x: u64|
                final(self)@.has_tx(x) <==> (old(self)@.has_tx(x) && old(self)@.tx_at(
                    x,
                ).topoheight <= h),
            forall|x: u64|
                final(self)@.has_tx(x) ==> final(self)@.tx_at(x) == old(self)@.tx_at(x),
            final(self)@ == (StorageV { txs: final(self)@.txs, ..old(self)@ }),
    {
        proof {
            assert(self@ == old(self)@);
        }
        let mut i: usize = 0;
        while i < self.txs.len()
            invariant
                old(self)@.wf(),
                i <= self.txs.len(),
                self@ == (StorageV { txs: self@.txs, ..old(self)@ }),
                forall|j: int| 0 <= j < i ==> self@.txs[j].topoheight <= h,
                forall|j1: int, j2: int|
                    0 <= j1 < j2 < self@.txs.len() ==> self@.txs[j1].hash != self@.txs[j2].hash,
                forall|x: u64|
                    old(self)@.has_tx(x) && old(self)@.tx_at(x).topoheight <= h
                        ==> self@.has_tx(x),
                forall|x: u64|
                    #[trigger] self@.has_tx(x) ==> old(self)@.has_tx(x) && self@.tx_at(x)
                        == old(self)@.tx_at(x),
            decreases self.txs.len() - i,
        {
            if self.txs[i].topoheight > h {
                let ghost pre = self@;
                self.txs.remove(i);
                proof {
                    assert(pre.wf());
                    assert forall|j: int| 0 <= j < self@.txs.len() implies self@.txs[j]
                        == (if j < i { pre.txs[j] } else { pre.txs[j + 1] }) by {
                        pre.txs.remove_ensures(i as int);
                    }
                    assert forall|j1: int, j2: int|
                        0 <= j1 < j2 < self@.txs.len() implies self@.txs[j1].hash
                            != self@.txs[j2].hash by {
                        if j2 < i {
                        } else if j1 < i {
                            assert(self@.txs[j2] == pre.txs[j2 + 1]);
                        } else {
                            assert(self@.txs[j1] == pre.txs[j1 + 1]);
                            assert(self@.txs[j2] == pre.txs[j2 + 1]);
                        }
                    }
                    assert(self@.wf());
                    assert forall|x: u64| #[trigger] self@.has_tx(x) implies old(self)@.has_tx(x)
                        && self@.tx_at(x) == old(self)@.tx_at(x) by {
                        let k = self@.tx_ix(x);
                        assert(0 <= k < self@.txs.len() && self@.txs[k].hash == x);
                        self@.lemma_tx_index(k);
                        if k < i {
                            assert(self@.txs[k] == pre.txs[k]);
                            pre.lemma_tx_index(k);
                        } else {
                            assert(self@.txs[k] == pre.txs[k + 1]);
                            pre.lemma_tx_index(k + 1);
                        }
                        assert(pre.has_tx(x));
                    }
                    assert forall|x: u64|
                        old(self)@.has_tx(x) && old(self)@.tx_at(x).topoheight <= h
                            implies self@.has_tx(x) by {
                        assert(pre.has_tx(x));
                        let k = pre.tx_ix(x);
                        assert(0 <= k < pre.txs.len() && pre.txs[k].hash == x);
                        // the removed record has topoheight > h, so it is not x's
                        if k == i {
                            pre.lemma_tx_index(k);
                            assert(pre.tx_at(x) == pre.txs[i as int]);
                            assert(old(self)@.tx_at(x).topoheight > h);
                        } else if k < i {
                            assert(self@.txs[k].hash == x);
                        } else {
                            assert(self@.txs[k - 1] == pre.txs[k]);
                            assert(self@.txs[k - 1].hash == x);
                        }
                    }
                }
            } else {
                i += 1;
            }
        }
        proof {
            assert forall|x: u64| #[trigger] self@.has_tx(x) implies old(self)@.has_tx(x)
                && old(self)@.tx_at(x).topoheight <= h by {
                let k = self@.tx_ix(x);
                assert(0 <= k < self@.txs.len() && self@.txs[k].hash == x);
                self@.lemma_tx_index(k);
                assert(self@.txs[k].topoheight <= h);
            }
        }
    }

    // ----- the "changes" index -----

    pub fn has_topoheight_in_changes(&self, t: u64) -> (r: bool)
        ensures
            r == self@.has_change(t),
    {
        let mut i: usize = 0;
        while i < self.changes.len()
            invariant
                i <= self.changes.len(),
                forall|j: int| 0 <= j < i ==> self@.changes[j].topoheight != t,
            decreases self.changes.len() - i,
        {
            if self.changes[i].topoheight == t {
                proof {
                    assert(self@.changes[i as int].topoheight == t);
                }
                return true;
            }
            i += 1;
        }
        false
    }

    pub fn get_block_hash_for_topoheight(&self, t: u64) -> (r: Option<u64>)
        requires
            self@.wf(),
        ensures
            r == if self@.has_change(t) {
                Option::Some(self@.change_hash(t))
            } else {
                Option::<u64>::None
            },
    {
        let mut i: usize = 0;
        while i < self.changes.len()
            invariant
                self@.wf(),
                i <= self.changes.len(),
                forall|j: int| 0 <= j < i ==> self@.changes[j].topoheight != t,
            decreases self.changes.len() - i,
        {
            if self.changes[i].topoheight == t {
                proof {
                    assert(self@.changes[i as int].topoheight == t);
                    self@.lemma_change_index(i as int);
                }
                return Option::Some(self.changes[i].block_hash);
            }
            i += 1;
        }
        Option::None
    }

    /// Remove any marker at `t`; shared by the upsert below.
    fn remove_change_entry(&mut self, t: u64)
        requires
            old(self)@.wf(),
        ensures
            final(self)@.wf(),
            !final(self)@.has_change(t),
            forall|x: u64| x != t ==> final(self)@.has_change(x) == old(self)@.has_change(x),
            forall|x: u64|
                x != t && final(self)@.has_change(x) ==> final(self)@.change_hash(x)
                    == old(self)@.change_hash(x),
            final(self)@ == (StorageV { changes: final(self)@.changes, ..old(self)@ }),
    {
        let mut i: usize = 0;
        while i < self.changes.len()
            invariant
                old(self)@.wf(),
                i <= self.changes.len(),
                self@ == old(self)@,
                forall|j: int| 0 <= j < i ==> self@.changes[j].topoheight != t,
            decreases self.changes.len() - i,
        {
            if self.changes[i].topoheight == t {
                let ghost pre = self@;
                self.changes.remove(i);
                proof {
                    assert forall|j: int| 0 <= j < self@.changes.len() implies self@.changes[j]
                        == (if j < i { pre.changes[j] } else { pre.changes[j + 1] }) by {
                        pre.changes.remove_ensures(i as int);
                    }
                    assert(self@.wf());
                    assert(!self@.has_change(t)) by {
                        if self@.has_change(t) {
                            let k = choose|k: int|
                                0 <= k < self@.changes.len() && self@.changes[k].topoheight == t;
                            if k < i {
                                assert(pre.changes[k].topoheight == t);
                            } else {
                                assert(pre.changes[k + 1].topoheight == t);
                            }
                        }
                    }
                    assert forall|x: u64| x != t implies self@.has_change(x)
                        == old(self)@.has_change(x) by {
                        if old(self)@.has_change(x) {
                            let k = old(self)@.change_ix(x);
                            if k < i {
                                assert(self@.changes[k].topoheight == x);
                            } else {
                                assert(self@.changes[k - 1] == pre.changes[k]);
                                assert(self@.changes[k - 1].topoheight == x);
                            }
                        }
                        if self@.has_change(x) {
                            let k = choose|k: int|
                                0 <= k < self@.changes.len() && self@.changes[k].topoheight == x;
                            if k < i {
                                assert(pre.changes[k].topoheight == x);
                            } else {
                                assert(pre.changes[k + 1].topoheight == x);
                            }
                        }
                    }
                    assert forall|x: u64| x != t && self@.has_change(x)
                        implies self@.change_hash(x) == old(self)@.change_hash(x) by {
                        let k = self@.change_ix(x);
                        assert(0 <= k < self@.changes.len() && self@.changes[k].topoheight == x);
                        if k < i {
                            old(self)@.lemma_change_index(k);
                        } else {
                            old(self)@.lemma_change_index(k + 1);
                        }
                    }
                }
                return;
            }
            i += 1;
        }
    }

    /// Record that the wallet observed relevant activity at `t` in the block
    /// with this hash. Overwrites an existing marker at the same topoheight.
    pub fn add_topoheight_to_changes(&mut self, t: u64, block_hash: u64)
        requires
            old(self)@.wf(),
        ensures
            final(self)@.wf(),
            final(self)@.has_change(t),
            final(self)@.change_hash(t) == block_hash,
            forall|x: u64| x != t ==> final(self)@.has_change(x) == old(self)@.has_change(x),
            forall|x: u64|
                x != t && final(self)@.has_change(x) ==> final(self)@.change_hash(x)
                    == old(self)@.change_hash(x),
            final(self)@ == (StorageV { changes: final(self)@.changes, ..old(self)@ }),
    {
        self.remove_change_entry(t);
        let ghost mid = self@;
        self.changes.push(ChangeEntry { topoheight: t, block_hash });
        proof {
            let n = mid.changes.len() as int;
            assert(self@.changes[n].topoheight == t);
            assert forall|j: int| 0 <= j < n implies #[trigger] self@.changes[j].topoheight
                != t by {
                if self@.changes[j].topoheight == t {
                    assert(mid.changes[j].topoheight == t);
                    assert(mid.has_change(t));
                }
            }
            assert(self@.wf());
            self@.lemma_change_index(n);
            assert forall|x: u64| x != t implies self@.has_change(x) == mid.has_change(x) by {
                if mid.has_change(x) {
                    let k = mid.change_ix(x);
                    assert(self@.changes[k].topoheight == x);
                }
                if self@.has_change(x) {
                    let k = choose|k: int|
                        0 <= k < self@.changes.len() && self@.changes[k].topoheight == x;
                    assert(k != n);
                    assert(mid.changes[k].topoheight == x);
                }
            }
            assert forall|x: u64| x != t && self@.has_change(x) implies self@.change_hash(x)
                == mid.change_hash(x) by {
                let k = self@.change_ix(x);
                assert(0 <= k < self@.changes.len() && self@.changes[k].topoheight == x);
                assert(k != n);
                mid.lemma_change_index(k);
            }
        }
    }

    /// Delete every marker strictly above `h`; reports whether any was
    /// deleted.
    pub fn delete_changes_above_topoheight(&mut self, h: u64) -> (deleted: bool)
        requires
            old(self)@.wf(),
        ensures
            final(self)@.wf(),
            deleted == exists|t: u64| #[trigger] old(self)@.has_change(t) && t > h,
            forall|x: u64|
                final(self)@.has_change(x) <==> (old(self)@.has_change(x) && x <= h),
            forall|x: u64|
                final(self)@.has_change(x) ==> final(self)@.change_hash(x)
                    == old(self)@.change_hash(x),
            final(self)@ == (StorageV { changes: final(self)@.changes, ..old(self)@ }),
    {
        proof {
            assert(self@ == old(self)@);
        }
        let mut deleted = false;
        let mut i: usize = 0;
        while i < self.changes.len()
            invariant
                old(self)@.wf(),
                i <= self.changes.len(),
                self@ == (StorageV { changes: self@.changes, ..old(self)@ }),
                forall|j: int| 0 <= j < i ==> self@.changes[j].topoheight <= h,
                forall|j1: int, j2: int|
                    0 <= j1 < j2 < self@.changes.len() ==> self@.changes[j1].topoheight
                        != self@.changes[j2].topoheight,
                forall|x: u64| old(self)@.has_change(x) && x <= h ==> self@.has_change(x),
                forall|x: u64|
                    #[trigger] self@.has_change(x) ==> old(self)@.has_change(x)
                        && self@.change_hash(x) == old(self)@.change_hash(x),
                deleted == exists|t: u64|
                    #[trigger] old(self)@.has_change(t) && t > h && !self@.has_change(t),
            decreases self.changes.len() - i,
        {
            if self.changes[i].topoheight > h {
                let ghost pre = self@;
                let ghost removed_t = self.changes[i as int].topoheight;
                self.changes.remove(i);
                deleted = true;
                proof {
                    assert(pre.wf());
                    assert forall|j: int| 0 <= j < self@.changes.len() implies self@.changes[j]
                        == (if j < i { pre.changes[j] } else { pre.changes[j + 1] }) by {
                        pre.changes.remove_ensures(i as int);
                    }
                    assert forall|j1: int, j2: int|
                        0 <= j1 < j2 < self@.changes.len() implies self@.changes[j1].topoheight
                            != self@.changes[j2].topoheight by {
                        if j2 < i {
                        } else if j1 < i {
                            assert(self@.changes[j2] == pre.changes[j2 + 1]);
                        } else {
                            assert(self@.changes[j1] == pre.changes[j1 + 1]);
                            assert(self@.changes[j2] == pre.changes[j2 + 1]);
                        }
                    }
                    assert(self@.wf());
                    assert forall|x: u64| #[trigger] self@.has_change(x)
                        implies old(self)@.has_change(x) && self@.change_hash(x)
                        == old(self)@.change_hash(x) by {
                        let k = self@.change_ix(x);
                        assert(0 <= k < self@.changes.len() && self@.changes[k].topoheight == x);
                        self@.lemma_change_index(k);
                        if k < i {
                            assert(self@.changes[k] == pre.changes[k]);
                            pre.lemma_change_index(k);
                        } else {
                            assert(self@.changes[k] == pre.changes[k + 1]);
                            pre.lemma_change_index(k + 1);
                        }
                        assert(pre.has_change(x));
                    }
                    assert forall|x: u64|
                        old(self)@.has_change(x) && x <= h implies self@.has_change(x) by {
                        assert(pre.has_change(x));
                        let k = pre.change_ix(x);
                        assert(0 <= k < pre.changes.len() && pre.changes[k].topoheight == x);
                        if k == i {
                            pre.lemma_change_index(k);
                        } else if k < i {
                            assert(self@.changes[k].topoheight == x);
                        } else {
                            assert(self@.changes[k - 1] == pre.changes[k]);
                            assert(self@.changes[k - 1].topoheight == x);
                        }
                    }
                    assert(!self@.has_change(removed_t)) by {
                        if self@.has_change(removed_t) {
                            let k = choose|k: int|
                                0 <= k < self@.changes.len() && self@.changes[k].topoheight
                                    == removed_t;
                            if k < i {
                                assert(pre.changes[k].topoheight == removed_t);
                            } else {
                                assert(pre.changes[k + 1].topoheight == removed_t);
                            }
                        }
                    }
                    pre.lemma_change_index(i as int);
                    assert(pre.has_change(removed_t));
                    assert(old(self)@.has_change(removed_t) && removed_t > h
                        && !self@.has_change(removed_t));
                }
            } else {
                i += 1;
            }
        }
        proof {
            assert forall|x: u64| #[trigger] self@.has_change(x) implies old(self)@.has_change(x)
                && x <= h by {
                let k = self@.change_ix(x);
                assert(0 <= k < self@.changes.len() && self@.changes[k].topoheight == x);
                self@.lemma_change_index(k);
                assert(self@.changes[k].topoheight <= h);
            }
            if deleted {
                let t = choose|t: u64|
                    #[trigger] old(self)@.has_change(t) && t > h && !self@.has_change(t);
                assert(old(self)@.has_change(t) && t > h);
            }
        }
        deleted
    }

    /// The highest topoheight at or below `h` that carries a changes
    /// marker; 0 if none does.
    pub fn get_highest_topoheight_in_changes_below(&self, h: u64) -> (r: u64)
        ensures
            r == 0 || (self@.has_change(r) && r <= h),
            forall|t: u64| self@.has_change(t) && t <= h ==> t <= r,
    {
        let mut best: u64 = 0;
        let mut i: usize = 0;
        while i < self.changes.len()
            invariant
                i <= self.changes.len(),
                best == 0 || (self@.has_change(best) && best <= h),
                forall|j: int|
                    0 <= j < i && self@.changes[j].topoheight <= h ==> self@.changes[j].topoheight
                        <= best,
            decreases self.changes.len() - i,
        {
            let t = self.changes[i].topoheight;
            if t <= h && t > best {
                best = t;
                proof {
                    assert(self@.changes[i as int].topoheight == best);
                }
            }
            i += 1;
        }
        proof {
            assert forall|t: u64| self@.has_change(t) && t <= h implies t <= best by {
                let j = choose|j: int|
                    0 <= j < self@.changes.len() && self@.changes[j].topoheight == t;
            }
        }
        best
    }

    // ----- head pointer -----

    pub fn get_synced_topoheight(&self) -> (r: u64)
        ensures
            r == self@.synced_topoheight,
    {
        self.synced_topoheight
    }

    pub fn set_synced_topoheight(&mut self, t: u64)
        ensures
            final(self)@ == (StorageV { synced_topoheight: t, ..old(self)@ }),
    {
        self.synced_topoheight = t;
    }

    pub fn has_top_block_hash(&self) -> (r: bool)
        ensures
            r == self@.top_block_hash is Some,
    {
        self.top_block_hash.is_some()
    }

    pub fn get_top_block_hash(&self) -> (r: Option<u64>)
        ensures
            r == self@.top_block_hash,
    {
        self.top_block_hash
    }

    pub fn set_top_block_hash(&mut self, hash: u64)
        ensures
            final(self)@ == (StorageV { top_block_hash: Option::Some(hash), ..old(self)@ }),
    {
        self.top_block_hash = Option::Some(hash);
    }

    // ----- nonce -----

    pub fn get_nonce(&self) -> (r: Option<u64>)
        ensures
            r == self@.nonce,
    {
        self.nonce
    }

    pub fn set_nonce(&mut self, n: u64)
        ensures
            final(self)@ == (StorageV { nonce: Option::Some(n), ..old(self)@ }),
    {
        self.nonce = Option::Some(n);
    }

    // ----- assets -----

    pub fn contains_asset(&self, a: u64) -> (r: bool)
        ensures
            r == self@.has_asset(a),
    {
        let mut i: usize = 0;
        while i < self.assets.len()
            invariant
                i <= self.assets.len(),
                forall|j: int| 0 <= j < i ==> self@.assets[j].asset != a,
            decreases self.assets.len() - i,
        {
            if self.assets[i].asset == a {
                proof {
                    assert(self@.assets[i as int].asset == a);
                }
                return true;
            }
            i += 1;
        }
        false
    }

    pub fn add_asset(&mut self, a: u64, decimals: u8)
        requires
            old(self)@.wf(),
            !old(self)@.has_asset(a),
        ensures
            final(self)@.wf(),
            final(self)@.assets == old(self)@.assets.push(AssetEntry { asset: a, decimals }),
            final(self)@.has_asset(a),
            final(self)@.asset_decimals(a) == decimals,
            forall|x: u64| x != a ==> final(self)@.has_asset(x) == old(self)@.has_asset(x),
            final(self)@ == (StorageV { assets: final(self)@.assets, ..old(self)@ }),
    {
        self.assets.push(AssetEntry { asset: a, decimals });
        proof {
            let n = old(self)@.assets.len() as int;
            assert(self@.assets[n].asset == a);
            assert forall|j: int| 0 <= j < n implies #[trigger] self@.assets[j].asset != a by {
                if self@.assets[j].asset == a {
                    assert(old(self)@.assets[j].asset == a);
                    assert(old(self)@.has_asset(a));
                }
            }
            assert(self@.wf());
            self@.lemma_asset_index(n);
            assert forall|x: u64| x != a implies self@.has_asset(x) == old(self)@.has_asset(
                x,
            ) by {
                if old(self)@.has_asset(x) {
                    let k = old(self)@.asset_ix(x);
                    assert(self@.assets[k].asset == x);
                }
                if self@.has_asset(x) {
                    let k = choose|k: int|
                        0 <= k < self@.assets.len() && self@.assets[k].asset == x;
                    assert(k != n);
                    assert(old(self)@.assets[k].asset == x);
                }
            }
        }
    }

    pub fn delete_assets(&mut self)
        ensures
            final(self)@ == (StorageV { assets: Seq::<AssetEntry>::empty(), ..old(self)@ }),
    {
        self.assets.clear();
    }

    /// The set of known asset identifiers, in insertion order.
    pub fn get_assets(&self) -> (r: Vec<u64>)
        ensures
            r@.len() == self@.assets.len(),
            forall|j: int| 0 <= j < r@.len() ==> r@[j] == self@.assets[j].asset,
    {
        let mut r: Vec<u64> = Vec::new();
        let mut i: usize = 0;
        while i < self.assets.len()
            invariant
                i <= self.assets.len(),
                r@.len() == i,
                forall|j: int| 0 <= j < i ==> r@[j] == self@.assets[j].asset,
            decreases self.assets.len() - i,
        {
            r.push(self.assets[i].asset);
            i += 1;
        }
        r
    }

    // ----- balances -----

    pub fn get_balance_for(&self, a: u64) -> (r: Option<BalanceEntry>)
        requires
            self@.wf(),
        ensures
            r == if self@.has_balance(a) {
                Option::Some(self@.balance_at(a))
            } else {
                Option::<BalanceEntry>::None
            },
    {
        let mut i: usize = 0;
        while i < self.balances.len()
            invariant
                self@.wf(),
                i <= self.balances.len(),
                forall|j: int| 0 <= j < i ==> self@.balances[j].asset != a,
            decreases self.balances.len() - i,
        {
            if self.balances[i].asset == a {
                proof {
                    assert(self@.balances[i as int].asset == a);
                    self@.lemma_balance_index(i as int);
                }
                return Option::Some(self.balances[i]);
            }
            i += 1;
        }
        Option::None
    }

    /// Remove any balance record for `a`; shared by the upsert below.
    fn remove_balance_entry(&mut self, a: u64)
        requires
            old(self)@.wf(),
        ensures
            final(self)@.wf(),
            !final(self)@.has_balance(a),
            forall|x: u64| x != a ==> final(self)@.has_balance(x) == old(self)@.has_balance(x),
            forall|x: u64|
                x != a && final(self)@.has_balance(x) ==> final(self)@.balance_at(x)
                    == old(self)@.balance_at(x),
            final(self)@ == (StorageV { balances: final(self)@.balances, ..old(self)@ }),
    {
        let mut i: usize = 0;
        while i < self.balances.len()
            invariant
                old(self)@.wf(),
                i <= self.balances.len(),
                self@ == old(self)@,
                forall|j: int| 0 <= j < i ==> self@.balances[j].asset != a,
            decreases self.balances.len() - i,
        {
            if self.balances[i].asset == a {
                let ghost pre = self@;
                self.balances.remove(i);
                proof {
                    assert forall|j: int| 0 <= j < self@.balances.len() implies self@.balances[j]
                        == (if j < i { pre.balances[j] } else { pre.balances[j + 1] }) by {
                        pre.balances.remove_ensures(i as int);
                    }
                    assert(self@.wf());
                    assert(!self@.has_balance(a)) by {
                        if self@.has_balance(a) {
                            let k = choose|k: int|
                                0 <= k < self@.balances.len() && self@.balances[k].asset == a;
                            if k < i {
                                assert(pre.balances[k].asset == a);
                            } else {
                                assert(pre.balances[k + 1].asset == a);
                            }
                        }
                    }
                    assert forall|x: u64| x != a implies self@.has_balance(x)
                        == old(self)@.has_balance(x) by {
                        if old(self)@.has_balance(x) {
                            let k = old(self)@.balance_ix(x);
                            if k < i {
                                assert(self@.balances[k].asset == x);
                            } else {
                                assert(self@.balances[k - 1] == pre.balances[k]);
                                assert(self@.balances[k - 1].asset == x);
                            }
                        }
                        if self@.has_balance(x) {
                            let k = choose|k: int|
                                0 <= k < self@.balances.len() && self@.balances[k].asset == x;
                            if k < i {
                                assert(pre.balances[k].asset == x);
                            } else {
                                assert(pre.balances[k + 1].asset == x);
                            }
                        }
                    }
                    assert forall|x: u64| x != a && self@.has_balance(x)
                        implies self@.balance_at(x) == old(self)@.balance_at(x) by {
                        let k = self@.balance_ix(x);
                        assert(0 <= k < self@.balances.len() && self@.balances[k].asset == x);
                        if k < i {
                            old(self)@.lemma_balance_index(k);
                        } else {
                            old(self)@.lemma_balance_index(k + 1);
                        }
                    }
                }
                return;
            }
            i += 1;
        }
    }

    /// Persist the balance record for an asset, replacing any previous one.
    pub fn set_balance_for(&mut self, a: u64, plaintext: u64, ciphertext: u64)
        requires
            old(self)@.wf(),
        ensures
            final(self)@.wf(),
            final(self)@.has_balance(a),
            final(self)@.balance_at(a) == (BalanceEntry { asset: a, plaintext, ciphertext }),
            forall|x: u64| x != a ==> final(self)@.has_balance(x) == old(self)@.has_balance(x),
            forall|x: u64|
                x != a && final(self)@.has_balance(x) ==> final(self)@.balance_at(x)
                    == old(self)@.balance_at(x),
            final(self)@ == (StorageV { balances: final(self)@.balances, ..old(self)@ }),
    {
        self.remove_balance_entry(a);
        let ghost mid = self@;
        self.balances.push(BalanceEntry { asset: a, plaintext, ciphertext });
        proof {
            let n = mid.balances.len() as int;
            assert(self@.balances[n].asset == a);
            assert forall|j: int| 0 <= j < n implies #[trigger] self@.balances[j].asset != a by {
                if self@.balances[j].asset == a {
                    assert(mid.balances[j].asset == a);
                    assert(mid.has_balance(a));
                }
            }
            assert(self@.wf());
            self@.lemma_balance_index(n);
            assert forall|x: u64| x != a implies self@.has_balance(x) == mid.has_balance(x) by {
                if mid.has_balance(x) {
                    let k = mid.balance_ix(x);
                    assert(self@.balances[k].asset == x);
                }
                if self@.has_balance(x) {
                    let k = choose|k: int|
                        0 <= k < self@.balances.len() && self@.balances[k].asset == x;
                    assert(k != n);
                    assert(mid.balances[k].asset == x);
                }
            }
            assert forall|x: u64| x != a && self@.has_balance(x) implies self@.balance_at(x)
                == mid.balance_at(x) by {
                let k = self@.balance_ix(x);
                assert(0 <= k < self@.balances.len() && self@.balances[k].asset == x);
                assert(k != n);
                mid.lemma_balance_index(k);
            }
        }
    }

    pub fn has_any_balance(&self) -> (r: bool)
        ensures
            r == (self@.balances.len() > 0),
    {
        self.balances.len() > 0
    }

    pub fn delete_balances(&mut self)
        ensures
            final(self)@ == (StorageV { balances: Seq::<BalanceEntry>::empty(), ..old(self)@ }),
    {
        self.balances.clear();
    }

    // ----- unconfirmed balance cache -----

    /// The cached plaintext for this asset and compressed ciphertext, if the
    /// wallet decrypted it before (when building its own transactions).
    pub fn get_unconfirmed_balance_decoded_for(&self, a: u64, ciphertext: u64) -> (r: Option<
        u64,
    >)
        requires
            self@.wf(),
        ensures
            r == self@.unconf_plain(a, ciphertext),
    {
        let mut i: usize = 0;
        while i < self.unconfirmed.len()
            invariant
                self@.wf(),
                i <= self.unconfirmed.len(),
                forall|j: int|
                    0 <= j < i ==> !(self@.unconfirmed[j].asset == a
                        && self@.unconfirmed[j].ciphertext == ciphertext),
            decreases self.unconfirmed.len() - i,
        {
            if self.unconfirmed[i].asset == a && self.unconfirmed[i].ciphertext == ciphertext {
                proof {
                    assert(self@.unconfirmed[i as int].asset == a && self@.unconfirmed[
                        i as int
                    ].ciphertext == ciphertext);
                    self@.lemma_unconf_index(i as int);
                }
                return Option::Some(self.unconfirmed[i].plaintext);
            }
            i += 1;
        }
        Option::None
    }

    /// Cache a decoded plaintext for `(a, ciphertext)`. The writer is the
    /// wallet's transaction builder; it never caches the same pair twice.
    pub fn add_unconfirmed_balance_decoded(&mut self, a: u64, ciphertext: u64, plaintext: u64)
        requires
            old(self)@.wf(),
            !old(self)@.has_unconf(a, ciphertext),
        ensures
            final(self)@.wf(),
            final(self)@.unconf_plain(a, ciphertext) == Option::Some(plaintext),
            forall|x: u64, c: u64|
                !(x == a && c == ciphertext) ==> final(self)@.unconf_plain(x, c)
                    == old(self)@.unconf_plain(x, c),
            final(self)@ == (StorageV { unconfirmed: final(self)@.unconfirmed, ..old(self)@ }),
    {
        self.unconfirmed.push(UnconfirmedEntry { asset: a, ciphertext, plaintext });
        proof {
            let n = old(self)@.unconfirmed.len() as int;
            assert(self@.unconfirmed[n].asset == a && self@.unconfirmed[n].ciphertext
                == ciphertext);
            assert forall|j: int| 0 <= j < n implies !(#[trigger] self@.unconfirmed[j].asset == a
                && self@.unconfirmed[j].ciphertext == ciphertext) by {
                if self@.unconfirmed[j].asset == a && self@.unconfirmed[j].ciphertext
                    == ciphertext {
                    assert(old(self)@.unconfirmed[j].asset == a && old(self)@.unconfirmed[
                        j
                    ].ciphertext == ciphertext);
                    assert(old(self)@.has_unconf(a, ciphertext));
                }
            }
            assert(self@.wf());
            self@.lemma_unconf_index(n);
            assert forall|x: u64, c: u64| !(x == a && c == ciphertext)
                implies self@.unconf_plain(x, c) == old(self)@.unconf_plain(x, c) by {
                if old(self)@.has_unconf(x, c) {
                    let k = old(self)@.unconf_ix(x, c);
                    assert(self@.unconfirmed[k].asset == x && self@.unconfirmed[k].ciphertext
                        == c);
                    old(self)@.lemma_unconf_index(k);
                    self@.lemma_unconf_index(k);
                }
                if self@.has_unconf(x, c) {
                    let k = choose|k: int|
                        0 <= k < self@.unconfirmed.len() && self@.unconfirmed[k].asset == x
                            && self@.unconfirmed[k].ciphertext == c;
                    assert(k != n);
                    assert(old(self)@.unconfirmed[k].asset == x && old(self)@.unconfirmed[
                        k
                    ].ciphertext == c);
                    old(self)@.lemma_unconf_index(k);
                    self@.lemma_unconf_index(k);
                }
            }
        }
    }

    // ----- tx cache -----

    /// The hash of the last transaction the wallet itself broadcast, if any.
    pub fn get_tx_cache(&self) -> (r: Option<u64>)
        ensures
            r == self@.tx_cache,
    {
        self.tx_cache
    }

    pub fn set_tx_cache(&mut self, hash: u64)
        ensures
            final(self)@ == (StorageV { tx_cache: Option::Some(hash), ..old(self)@ }),
    {
        self.tx_cache = Option::Some(hash);
    }

    pub fn clear_tx_cache(&mut self)
        ensures
            final(self)@ == (StorageV { tx_cache: Option::<u64>::None, ..old(self)@ }),
    {
        self.tx_cache = Option::None;
    }
}

} // verus!
