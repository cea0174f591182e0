//! A minimal single-process node for a hash-chained ledger.
//!
//! Blocks are linked by cryptographic hash, mined with a proof-of-work
//! puzzle, persisted in an embedded key-value store, and gossiped to peers
//! through a small tagged message set.

pub mod codec;
pub mod hashing;
pub mod transaction;
pub mod block;
pub mod proof_of_work;
pub mod chain;
pub mod blockchain;
pub mod node;
pub mod network;
