//! Authenticated-data-structure core of a verifiable blockchain index:
//! digests, the pairing-based set accumulator, the per-block commitment,
//! Merkle-mountain-range geometry and the query verifier.

pub mod digest;
pub mod ordered;
pub mod chain;
pub mod acc;
