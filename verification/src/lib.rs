//! A minimal single-node ledger: pending transfers are batched into blocks,
//! each block is sealed by a proof-of-work nonce search over a SHA-256
//! content hash, and sealed blocks form an append-only, hash-linked chain.

pub mod blockchain;
pub mod decimal;
pub mod digest;
pub mod laws;
pub mod model;
