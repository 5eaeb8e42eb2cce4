//! Chain-synchronization core of a privacy-preserving cryptocurrency wallet.
//!
//! The core keeps a local wallet ledger (transactions, per-asset balances,
//! nonce, chain head pointer) in agreement with a remote daemon that publishes
//! a DAG-ordered blockchain. Everything the sync logic decides is expressed
//! over plain values: the daemon is modelled as a snapshot of the chain state
//! the core reads (`daemon::DaemonState`), the persistent storage engine as an
//! in-memory ledger with the same operation surface (`storage::Storage`), and
//! ciphertext trial decryption by the plaintext it yields. The transport, the
//! storage backend and the cryptography live outside this crate; an embedding
//! application performs them and hands the results in as values.

pub mod model;
pub mod storage;
pub mod daemon;
pub mod processor;
pub mod locator;
pub mod head_state;
pub mod walker;
pub mod sync;
pub mod handler;
