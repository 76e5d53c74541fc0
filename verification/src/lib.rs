//! Distributed key generation for a fixed committee, driven by a chain of
//! blocks: the round schedule, the on-chain store with its three submission
//! handlers and its finalizer, the per-authority offchain rounds, the scalar
//! field the shares live in, and the block admission filter that waits for
//! randomness.

pub mod schedule;
pub mod types;
pub mod scalar;
pub mod keys;
pub mod local;
pub mod store;
pub mod pallet;
pub mod laws;
pub mod offchain;
pub mod sharing;
pub mod import;
