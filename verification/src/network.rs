//! The network-facing data the core validates: message envelopes and the
//! local test-network configuration.

pub mod config;
pub mod messages;
