//! Transaction-construction core for a privacy-preserving ledger wallet:
//! aggregated 64-bit range proofs over Pedersen commitments, power-of-two
//! batch padding, and the transaction-proposal data model with its wire
//! codec and cross-structural validator.

pub mod errors;
pub mod padding;
pub mod range_proofs;
pub mod proposal;
pub mod types;
pub mod wire;
