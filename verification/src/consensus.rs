//! The consensus engine: proposer selection, fork choice, block and
//! attestation processing, and slashing detection.

pub mod attestation;
pub mod engine;
pub mod fork_choice;
pub mod proposer_selection;
pub mod slashing;
