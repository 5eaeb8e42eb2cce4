//! A value-level model of the chain state the daemon exposes over RPC.
//!
//! The sync core only ever reads from the daemon; a `DaemonState` is the
//! snapshot it reads during one pass. The embedding application fills it from
//! the transport. Ciphertexts travel as compressed identifiers together with
//! the plaintext the wallet's trial decryption yields for them, and a
//! transfer whose commitment or handle would fail to decompress carries a
//! cleared validity flag.

use vstd::prelude::*;

verus! {

/// One transfer inside a `Transfers` transaction, as the daemon reports it,
/// enriched with what the wallet's cryptography would make of it.
#[derive(Debug, Clone, Copy, PartialEq, Eq)]
pub struct RpcTransfer {
    /// Public key of the receiving account.
    pub destination: u64,
    pub asset: u64,
    /// Whether the transfer's commitment decompresses.
    pub commitment_valid: bool,
    /// Whether the sender handle decompresses.
    pub sender_handle_valid: bool,
    /// Whether the receiver handle decompresses.
    pub receiver_handle_valid: bool,
    /// What trial-decrypting the transfer's ciphertext yields.
    pub amount: u64,
    /// The decrypted extra data, where present and decryptable (decryption
    /// of extra data is best-effort, so an undecryptable payload is `None`).
    pub extra_data: Option<u64>,
}

/// The tagged payload of a transaction as the daemon reports it.
#[derive(Debug, PartialEq, Eq)]
pub enum RpcTransactionType {
    Burn { asset: u64, amount: u64 },
    Transfers { transfers: Vec<RpcTransfer> },
}

#[derive(Debug, PartialEq, Eq)]
pub struct RpcTransaction {
    pub hash: u64,
    /// Public key of the source account.
    pub source: u64,
    pub fee: u64,
    pub nonce: u64,
    pub data: RpcTransactionType,
}

/// A block together with its transactions, as fetched at one topoheight.
#[derive(Debug, PartialEq, Eq)]
pub struct BlockResponse {
    pub hash: u64,
    /// Public key of the miner's address.
    pub miner: u64,
    /// Whether the miner's address belongs to mainnet.
    pub miner_mainnet: bool,
    pub miner_reward: Option<u64>,
    pub transactions: Vec<RpcTransaction>,
}

/// One version in an account's per-asset balance chain. Versions link
/// backward through `previous_topoheight`.
#[derive(Debug, Clone, Copy, PartialEq, Eq)]
pub struct BalanceVersion {
    pub topoheight: u64,
    /// Compressed form of the balance ciphertext.
    pub ciphertext: u64,
    /// What trial-decrypting the ciphertext yields.
    pub plaintext: u64,
    pub previous_topoheight: Option<u64>,
}

/// The balance-version chain of one asset, newest first.
#[derive(Debug, PartialEq, Eq)]
pub struct AssetChain {
    pub asset: u64,
    pub versions: Vec<BalanceVersion>,
}

/// Where a transaction was actually executed.
#[derive(Debug, Clone, Copy, PartialEq, Eq)]
pub struct TxExecution {
    pub tx_hash: u64,
    pub block_hash: u64,
    pub topoheight: u64,
}

/// Daemon-registered metadata of an asset.
#[derive(Debug, Clone, Copy, PartialEq, Eq)]
pub struct AssetData {
    pub asset: u64,
    pub decimals: u8,
}

/// The chain state one sync pass reads.
#[derive(Debug, PartialEq, Eq)]
pub struct DaemonState {
    /// The tip of the DAG order.
    pub topoheight: u64,
    pub top_block_hash: u64,
    /// Lowest topoheight with full block data; 0 when nothing is pruned.
    pub pruned_topoheight: u64,
    /// Whether the daemon runs on mainnet.
    pub mainnet: bool,
    /// The wallet account's nonce; `None` when the account is unregistered.
    pub nonce: Option<u64>,
    /// Assets the account is known to hold.
    pub account_assets: Vec<u64>,
    /// Metadata of every registered asset.
    pub registered_assets: Vec<AssetData>,
    /// The block at each topoheight: `blocks[t]` is the block the DAG
    /// orders at topoheight `t`.
    pub blocks: Vec<BlockResponse>,
    /// The account's balance chain for each asset that has one.
    pub chains: Vec<AssetChain>,
    /// For each executed transaction, the block that executed it.
    pub executions: Vec<TxExecution>,
}

impl DaemonState {
    pub open spec fn has_chain(self, a: u64) -> bool {
        exists|i: int| 0 <= i < self.chains.len() && self.chains[i].asset == a
    }

    pub open spec fn chain_ix(self, a: u64) -> int {
        choose|i: int| 0 <= i < self.chains.len() && self.chains[i].asset == a
    }

    pub open spec fn chain_of(self, a: u64) -> Seq<BalanceVersion> {
        self.chains[self.chain_ix(a)].versions@
    }

    pub open spec fn has_asset_data(self, a: u64) -> bool {
        exists|i: int|
            0 <= i < self.registered_assets.len() && self.registered_assets[i].asset == a
    }

    pub open spec fn asset_data_ix(self, a: u64) -> int {
        choose|i: int|
            0 <= i < self.registered_assets.len() && self.registered_assets[i].asset == a
    }

    pub open spec fn asset_decimals(self, a: u64) -> u8 {
        self.registered_assets[self.asset_data_ix(a)].decimals
    }

    pub open spec fn executed_in(self, tx_hash: u64, block_hash: u64) -> bool {
        exists|i: int|
            0 <= i < self.executions.len() && self.executions[i].tx_hash == tx_hash
                && self.executions[i].block_hash == block_hash
    }

    pub open spec fn has_executor(self, tx_hash: u64) -> bool {
        exists|i: int| 0 <= i < self.executions.len() && self.executions[i].tx_hash == tx_hash
    }

    pub open spec fn executor_ix(self, tx_hash: u64) -> int {
        choose|i: int| 0 <= i < self.executions.len() && self.executions[i].tx_hash == tx_hash
    }

    pub open spec fn executor_of(self, tx_hash: u64) -> TxExecution {
        self.executions[self.executor_ix(tx_hash)]
    }

    /// The hash of the block the DAG orders at topoheight `t`.
    pub open spec fn hash_at(self, t: u64) -> u64 {
        self.blocks[t as int].hash
    }

    /// Well-formedness of one block: transaction hashes are distinct, none
    /// collides with the block's own hash, and every nonce leaves room for
    /// the successor the wallet computes from it.
    pub open spec fn block_wf(b: BlockResponse) -> bool {
        &&& forall|i: int, j: int|
            0 <= i < j < b.transactions.len() ==> b.transactions[i].hash
                != b.transactions[j].hash
        &&& forall|i: int|
            0 <= i < b.transactions.len() ==> b.transactions[i].hash != b.hash
        &&& forall|i: int|
            0 <= i < b.transactions.len() ==> b.transactions[i].nonce < u64::MAX
    }

    /// Well-formedness of the snapshot.
    pub open spec fn wf(self) -> bool {
        // one block per topoheight up to the tip, and the tip hash is the
        // hash of the block at the tip
        &&& self.blocks.len() == self.topoheight + 1
        &&& self.hash_at(self.topoheight) == self.top_block_hash
        &&& self.pruned_topoheight <= self.topoheight
        &&& forall|t: int| 0 <= t < self.blocks.len() ==> Self::block_wf(self.blocks[t])
        // every block's miner address lives on the daemon's network
        &&& forall|t: int|
            0 <= t < self.blocks.len() ==> #[trigger] self.blocks[t].miner_mainnet
                == self.mainnet
        // balance chains: distinct assets; versions newest first, linked
        // backward by `previous_topoheight`, all at or below the tip
        &&& forall|i: int, j: int|
            0 <= i < j < self.chains.len() ==> self.chains[i].asset != self.chains[j].asset
        &&& forall|i: int| 0 <= i < self.chains.len() ==> Self::chain_wf(
            self.chains[i].versions@,
            self.topoheight,
        )
        // at most one executor per transaction
        &&& forall|i: int, j: int|
            0 <= i < j < self.executions.len() ==> self.executions[i].tx_hash
                != self.executions[j].tx_hash
        &&& forall|i: int|
            0 <= i < self.executions.len() ==> self.executions[i].topoheight <= self.topoheight
        // the account's asset list has no duplicates
        &&& forall|i: int, j: int|
            0 <= i < j < self.account_assets.len() ==> self.account_assets[i]
                != self.account_assets[j]
        // registered asset metadata is keyed by asset
        &&& forall|i: int, j: int|
            0 <= i < j < self.registered_assets.len() ==> self.registered_assets[i].asset
                != self.registered_assets[j].asset
    }

    pub open spec fn chain_wf(vs: Seq<BalanceVersion>, tip: u64) -> bool {
        &&& vs.len() > 0
        &&& vs[0].topoheight <= tip
        &&& forall|i: int|
            0 <= i < vs.len() ==> vs[i].previous_topoheight == if i + 1 < vs.len() {
                Option::Some(vs[i + 1].topoheight)
            } else {
                Option::<u64>::None
            }
        &&& forall|i: int| 0 <= i < vs.len() - 1 ==> vs[i + 1].topoheight < #[trigger] vs[i].topoheight
    }

    /// The topoheights of a well-formed balance chain descend strictly.
    pub proof fn lemma_chain_descending(vs: Seq<BalanceVersion>, tip: u64, i: int, j: int)
        requires
            Self::chain_wf(vs, tip),
            0 <= i < j < vs.len(),
        ensures
            vs[j].topoheight < vs[i].topoheight,
        decreases j - i,
    {
        if i + 1 < j {
            Self::lemma_chain_descending(vs, tip, i + 1, j);
        }
    }

    /// The block ordered at topoheight `t`, with its transactions.
    pub fn get_block_at_topoheight(&self, t: u64) -> (r: &BlockResponse)
        requires
            self.wf(),
            t <= self.topoheight,
        ensures
            *r == self.blocks@[t as int],
            r.hash == self.hash_at(t),
    {
        &self.blocks[t as usize]
    }

    /// The newest balance version for this asset, if the account holds it.
    pub fn get_balance(&self, asset: u64) -> (r: Option<&AssetChain>)
        requires
            self.wf(),
        ensures
            match r {
                Option::Some(c) => self.has_chain(asset) && c.asset == asset && c.versions@
                    == self.chain_of(asset),
                Option::None => !self.has_chain(asset),
            },
    {
        let mut i: usize = 0;
        while i < self.chains.len()
            invariant
                self.wf(),
                i <= self.chains.len(),
                forall|j: int| 0 <= j < i ==> self.chains@[j].asset != asset,
            decreases self.chains.len() - i,
        {
            if self.chains[i].asset == asset {
                proof {
                    assert(self.chains@[i as int].asset == asset);
                    let k = self.chain_ix(asset);
                    assert(0 <= k < self.chains.len() && self.chains@[k].asset == asset);
                    if k < i as int {
                        assert(self.chains@[k].asset != self.chains@[i as int].asset);
                    } else if k > i as int {
                        assert(self.chains@[i as int].asset != self.chains@[k].asset);
                    }
                }
                return Option::Some(&self.chains[i]);
            }
            i += 1;
        }
        Option::None
    }

    /// The account's nonce, `None` when the account is unregistered.
    pub fn get_nonce(&self) -> (r: Option<u64>)
        ensures
            r == self.nonce,
    {
        self.nonce
    }

    /// The daemon-registered metadata of an asset.
    pub fn get_asset(&self, asset: u64) -> (r: Option<AssetData>)
        requires
            self.wf(),
        ensures
            match r {
                Option::Some(d) => self.has_asset_data(asset) && d.asset == asset && d.decimals
                    == self.asset_decimals(asset),
                Option::None => !self.has_asset_data(asset),
            },
    {
        let mut i: usize = 0;
        while i < self.registered_assets.len()
            invariant
                self.wf(),
                i <= self.registered_assets.len(),
                forall|j: int| 0 <= j < i ==> self.registered_assets@[j].asset != asset,
            decreases self.registered_assets.len() - i,
        {
            if self.registered_assets[i].asset == asset {
                proof {
                    assert(self.registered_assets@[i as int].asset == asset);
                    let k = self.asset_data_ix(asset);
                    assert(0 <= k < self.registered_assets.len()
                        && self.registered_assets@[k].asset == asset);
                    if k < i as int {
                        assert(self.registered_assets@[k].asset
                            != self.registered_assets@[i as int].asset);
                    } else if k > i as int {
                        assert(self.registered_assets@[i as int].asset
                            != self.registered_assets@[k].asset);
                    }
                }
                let d = self.registered_assets[i];
                return Option::Some(AssetData { asset, decimals: d.decimals });
            }
            i += 1;
        }
        Option::None
    }

    /// Whether this transaction was executed in this block.
    pub fn is_tx_executed_in_block(&self, tx_hash: u64, block_hash: u64) -> (r: bool)
        ensures
            r == self.executed_in(tx_hash, block_hash),
    {
        let mut i: usize = 0;
        while i < self.executions.len()
            invariant
                i <= self.executions.len(),
                forall|j: int|
                    0 <= j < i ==> !(self.executions@[j].tx_hash == tx_hash
                        && self.executions@[j].block_hash == block_hash),
            decreases self.executions.len() - i,
        {
            if self.executions[i].tx_hash == tx_hash && self.executions[i].block_hash
                == block_hash {
                return true;
            }
            i += 1;
        }
        false
    }

    /// The block that executed this transaction, if any did.
    pub fn get_transaction_executor(&self, tx_hash: u64) -> (r: Option<TxExecution>)
        requires
            self.wf(),
        ensures
            r == if self.has_executor(tx_hash) {
                Option::Some(self.executor_of(tx_hash))
            } else {
                Option::<TxExecution>::None
            },
    {
        let mut i: usize = 0;
        while i < self.executions.len()
            invariant
                self.wf(),
                i <= self.executions.len(),
                forall|j: int| 0 <= j < i ==> self.executions@[j].tx_hash != tx_hash,
            decreases self.executions.len() - i,
        {
            if self.executions[i].tx_hash == tx_hash {
                proof {
                    let k = self.executor_ix(tx_hash);
                    assert(self.executions@[k].tx_hash == tx_hash);
                    if k < i as int {
                        assert(self.executions@[k].tx_hash != self.executions@[i as int].tx_hash);
                    } else if k > i as int {
                        assert(self.executions@[i as int].tx_hash
                            != self.executions@[k].tx_hash);
                    }
                }
                return Option::Some(self.executions[i]);
            }
            i += 1;
        }
        Option::None
    }
}

} // verus!
