//! Views of multisig values by signature algorithm.
pub mod bls12381;
pub mod laws;
pub mod shares;
