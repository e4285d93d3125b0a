//! Privacy-preserving payment settlement core.
//!
//! Depositors commit value into a shared pool under a hiding commitment held
//! in an append-only incremental Merkle accumulator; withdrawals are gated by
//! a succinct proof checked against a registered verification key, bound to
//! the pool's current accumulator root, and guarded against replay by a
//! single-use nullifier registry.

pub mod errors;
pub mod hash;
pub mod merkle;
pub mod nullifier;
pub mod groth16;
pub mod pool;
pub mod settlement;
pub mod vk_registry;
