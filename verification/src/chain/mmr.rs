//! Merkle mountain range over per-block commitment roots.

pub mod helper;
