//! The consensus engine of a proof-of-stake node: a stake-weighted
//! validator registry, deterministic proposer and committee selection,
//! fork choice over a DAG of signed blocks with checkpoint finalization and
//! pruning, per-epoch rewards and ejection, and the hashing, Merkle-tree
//! and Ed25519 primitives they stand on. Every state transition carries a
//! contract, and the transport, storage and configuration shells around the
//! core talk to it in plain values.

pub mod assoc;
pub mod config;
pub mod consensus;
pub mod crypto;
pub mod network;
pub mod types;
pub mod validator;
