//! Plain-value data model shared by the whole sync core.
//!
//! Hashes, addresses (public keys), assets and compressed ciphertexts are
//! identified by `u64` values; a ciphertext identifier stands for the
//! compressed ElGamal pair, and the plaintext a trial decryption of it would
//! yield travels beside it in the daemon model.

use vstd::prelude::*;

verus! {

/// Identifier of the chain's native asset (the asset coinbase rewards pay).
pub const NATIVE_ASSET: u64 = 0;

/// Errors surfaced at the core boundary.
#[derive(Debug, Clone, Copy, PartialEq, Eq)]
pub enum NetworkError {
    /// `start` was called while a sync task exists and is not finished.
    AlreadyRunning,
    /// `stop` without a task, or a reconnect failure at `start`.
    NotRunning,
    /// The sync task joined with a failure.
    TaskError,
    /// A daemon request could not be answered.
    DaemonAPIError,
    /// The daemon's network identity differs from the wallet's.
    NetworkMismatch,
}

/// Events emitted to the embedding wallet.
#[derive(Debug, Clone, Copy, PartialEq, Eq)]
pub enum Event {
    Online,
    Offline,
    NewTopoHeight { topoheight: u64 },
    Rescan { start_topoheight: u64 },
    NewAsset { asset: u64, decimals: u8 },
    NewTransaction { hash: u64 },
    BalanceChanged { asset: u64, balance: u64 },
}

/// One outgoing transfer of a stored transaction entry.
#[derive(Debug, Clone, Copy, PartialEq, Eq)]
pub struct TransferOut {
    pub destination: u64,
    pub asset: u64,
    pub amount: u64,
    pub extra_data: Option<u64>,
}

/// One incoming transfer of a stored transaction entry.
#[derive(Debug, Clone, Copy, PartialEq, Eq)]
pub struct TransferIn {
    pub asset: u64,
    pub amount: u64,
    pub extra_data: Option<u64>,
}

/// The tagged payload of a stored transaction entry.
#[derive(Debug, PartialEq, Eq)]
pub enum EntryData {
    Coinbase { reward: u64 },
    Burn { asset: u64, amount: u64 },
    Outgoing { transfers: Vec<TransferOut>, fee: u64, nonce: u64 },
    Incoming { from: u64, transfers: Vec<TransferIn> },
}

/// Mathematical shape of an entry payload: transfer lists become sequences.
#[verifier::ext_equal]
pub enum EntryDataV {
    Coinbase { reward: u64 },
    Burn { asset: u64, amount: u64 },
    Outgoing { transfers: Seq<TransferOut>, fee: u64, nonce: u64 },
    Incoming { from: u64, transfers: Seq<TransferIn> },
}

impl View for EntryData {
    type V = EntryDataV;

    open spec fn view(&self) -> EntryDataV {
        match self {
            EntryData::Coinbase { reward } => EntryDataV::Coinbase { reward: *reward },
            EntryData::Burn { asset, amount } => EntryDataV::Burn {
                asset: *asset,
                amount: *amount,
            },
            EntryData::Outgoing { transfers, fee, nonce } => EntryDataV::Outgoing {
                transfers: transfers@,
                fee: *fee,
                nonce: *nonce,
            },
            EntryData::Incoming { from, transfers } => EntryDataV::Incoming {
                from: *from,
                transfers: transfers@,
            },
        }
    }
}

/// A persisted transaction entry, identified uniquely by `hash`.
#[derive(Debug, PartialEq, Eq)]
pub struct TransactionEntry {
    pub hash: u64,
    pub topoheight: u64,
    pub entry: EntryData,
}

/// Mathematical shape of a persisted transaction entry.
#[verifier::ext_equal]
pub struct TransactionEntryV {
    pub hash: u64,
    pub topoheight: u64,
    pub entry: EntryDataV,
}

impl View for TransactionEntry {
    type V = TransactionEntryV;

    open spec fn view(&self) -> TransactionEntryV {
        TransactionEntryV { hash: self.hash, topoheight: self.topoheight, entry: self.entry@ }
    }
}

/// The stored nonce is monotonically non-decreasing across any sequence of
/// successful events: each sync pass and event handler promises
/// `nonce_mono` between its pre- and post-state (a full sync under a
/// daemon whose nonce is not behind the wallet's), and the relation
/// composes.
pub proof fn lemma_nonce_mono_trans(a: Option<u64>, b: Option<u64>, c: Option<u64>)
    requires
        nonce_mono(a, b),
        nonce_mono(b, c),
    ensures
        nonce_mono(a, c),
{
}

/// Whether `b` is at least `a`, where `None` is below every nonce.
pub open spec fn nonce_mono(a: Option<u64>, b: Option<u64>) -> bool {
    match a {
        Option::None => true,
        Option::Some(x) => match b {
            Option::None => false,
            Option::Some(y) => x <= y,
        },
    }
}

} // verus!
