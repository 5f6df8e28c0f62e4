//! Audit of a payment-channel node's persisted state.
//!
//! A snapshot of the node's open channels is decoded from its binary form, and
//! for each channel the transaction that would currently settle it on-chain is
//! reconstructed: the balances of both parties, the outputs of the pending
//! conditional payments, the fee and the canonical order of the outputs.
pub mod canonical;
pub mod channel;
pub mod channel_laws;
pub mod commitment;
pub mod commitment_laws;
pub mod envelope;
pub mod envelope_laws;
pub mod error;
pub mod funding;
pub mod keys;
pub mod reordering;
pub mod report;
pub mod script;
pub mod seed;
pub mod sums;
pub mod wire;
pub mod wire_laws;
