//! The local test-network knobs the core understands; the transport's own
//! configuration lives with the transport shell.

use vstd::prelude::*;

verus! {

/// Settings for running several nodes on one machine.
#[derive(Debug, Clone, PartialEq, Eq)]
pub struct LocalNetworkConfig {
    /// Whether local-network mode is on.
    pub enabled: bool,
    /// Each local node listens at this port plus its number.
    pub base_port: u16,
    /// How many local nodes are supported.
    pub max_local_nodes: u8,
    /// The local address to bind to.
    pub bind_address: String,
}

impl LocalNetworkConfig {
    /// The port a local node listens on, saturating at the largest port.
    pub fn port_for_node(&self, node_id: u8) -> (r: u16)
        ensures
            r == if self.base_port + node_id <= u16::MAX {
                (self.base_port + node_id) as int
            } else {
                u16::MAX as int
            },
    {
        self.base_port.saturating_add(node_id as u16)
    }
}

impl Default for LocalNetworkConfig {
    fn default() -> (r: Self)
        ensures
            r.enabled,
            r.base_port == 9000,
            r.max_local_nodes == 10,
            r.bind_address@ =~= "127.0.0.1"@,
    {
        LocalNetworkConfig {
            enabled: true,
            base_port: 9000,
            max_local_nodes: 10,
            bind_address: "127.0.0.1".to_string(),
        }
    }
}

} // verus!
