//! Block-level structures, Merkle-mountain-range geometry and verification.

pub mod block;
pub mod id_tree;
pub mod mmr;
pub mod query;
pub mod verify;
