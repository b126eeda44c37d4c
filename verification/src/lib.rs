//! Core of a rollup-style prover for batches of account-balance transfers.
//!
//! The crate mirrors an authoritative account state into an indexed Merkle
//! tree, replays a fixed-size batch of transfers against that mirror while
//! capturing the per-transaction witnesses a proving circuit needs, and
//! derives the public commitment that binds the batch on-chain.  The
//! finite-field arithmetic and the hash primitive are taken from outside
//! libraries behind narrow trusted boundaries; everything layered on them
//! is verified.

pub mod bewords;
pub mod field;
pub mod codec;
pub mod tree;
pub mod commit;
pub mod prover;
