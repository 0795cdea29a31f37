//! Checkpoint-and-proof assembly for a Merkle Mountain Range whose node
//! hashes live in a remote index.
//!
//! The library turns a block height into the node positions that must be
//! fetched, re-correlates the remotely fetched hashes with the requested
//! order, reconstructs the MMR root by bagging peaks, assembles inclusion
//! proofs, and characterizes exactly which inputs succeed and which fail.

pub mod error;
pub mod num;
pub mod digest;
pub mod resolver;
pub mod mmr;
pub mod checkpoint;
