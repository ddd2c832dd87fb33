//! BLS12-381 threshold signature views for multisig values: the wire
//! encodings of signature shares and of the threshold data that collects
//! them, and the operations that split a multisig into shares, add a share
//! to it, and combine the shares back into a signature.
pub mod error;
pub mod multisig;
pub mod sig_views;
pub mod varint;
