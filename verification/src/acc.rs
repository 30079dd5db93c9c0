//! The pairing-based accumulator of sets of small positive integers.

pub mod acc_value;
pub mod curve;
pub mod field;
pub mod keys;
pub mod set;
