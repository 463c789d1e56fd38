//! The node's configuration: plain settings the core reads. Loading and
//! saving configuration files is the shell's work.

use crate::types::NetworkId;
use vstd::prelude::*;

verus! {

/// Everything a node is configured with.
#[derive(Debug, Clone, PartialEq, Eq)]
pub struct NodeConfig {
    pub network: NetworkConfig,
    pub storage: StorageConfig,
    pub validator: ValidatorConfig,
    pub api: ApiConfig,
    pub metrics: MetricsConfig,
    pub logging: LoggingConfig,
}

/// How the node joins its network.
#[derive(Debug, Clone, PartialEq, Eq)]
pub struct NetworkConfig {
    pub network_id: NetworkId,
    pub listen_address: String,
    pub port: u16,
    pub max_peers: usize,
    pub bootstrap_nodes: Vec<String>,
    pub enable_mdns: bool,
}

/// Where and how the node stores its data.
#[derive(Debug, Clone, PartialEq, Eq)]
pub struct StorageConfig {
    pub data_dir: String,
    pub db_url: Option<String>,
    pub cache_size: usize,
    pub sync_mode: SyncMode,
}

/// The node's validating duties.
#[derive(Debug, Clone, PartialEq, Eq)]
pub struct ValidatorConfig {
    pub enabled: bool,
    pub keystore_path: Option<String>,
    pub keystore_password: Option<String>,
    pub graffiti: Option<String>,
    pub fee_recipient: Option<String>,
}

/// The node's query interface.
#[derive(Debug, Clone, PartialEq, Eq)]
pub struct ApiConfig {
    pub enabled: bool,
    pub listen_address: String,
    pub cors_origins: Vec<String>,
    pub max_request_size: usize,
}

/// The node's metrics endpoint.
#[derive(Debug, Clone, PartialEq, Eq)]
pub struct MetricsConfig {
    pub enabled: bool,
    pub listen_address: String,
    pub namespace: String,
}

/// How the node logs.
#[derive(Debug, Clone, PartialEq, Eq)]
pub struct LoggingConfig {
    pub level: String,
    pub format: LogFormat,
    pub file: Option<String>,
}

/// How far back the node synchronises.
#[derive(Debug, Clone, Copy, PartialEq, Eq, Structural)]
pub enum SyncMode {
    Full,
    Fast,
    Light,
}

/// The shape log lines take.
#[derive(Debug, Clone, Copy, PartialEq, Eq, Structural)]
pub enum LogFormat {
    Json,
    Pretty,
    Compact,
}

impl Default for NodeConfig {
    fn default() -> (r: Self) {
        NodeConfig {
            network: NetworkConfig::default(),
            storage: StorageConfig::default(),
            validator: ValidatorConfig::default(),
            api: ApiConfig::default(),
            metrics: MetricsConfig::default(),
            logging: LoggingConfig::default(),
        }
    }
}

impl Default for NetworkConfig {
    fn default() -> (r: Self)
        ensures
            r.network_id == NetworkId::Devnet,
            r.port == 9000,
            r.max_peers == 50,
            r.bootstrap_nodes@.len() == 0,
            r.enable_mdns,
    {
        NetworkConfig {
            network_id: NetworkId::Devnet,
            listen_address: "0.0.0.0".to_string(),
            port: 9000,
            max_peers: 50,
            bootstrap_nodes: Vec::new(),
            enable_mdns: true,
        }
    }
}

impl Default for StorageConfig {
    fn default() -> (r: Self)
        ensures
            r.db_url is None,
            r.cache_size == 104857600,
            r.sync_mode == SyncMode::Full,
    {
        StorageConfig {
            data_dir: "./data".to_string(),
            db_url: None,
            cache_size: 104857600,
            sync_mode: SyncMode::Full,
        }
    }
}

impl Default for ValidatorConfig {
    fn default() -> (r: Self)
        ensures
            !r.enabled,
            r.keystore_path is None,
            r.keystore_password is None,
            r.graffiti is None,
            r.fee_recipient is None,
    {
        ValidatorConfig {
            enabled: false,
            keystore_path: None,
            keystore_password: None,
            graffiti: None,
            fee_recipient: None,
        }
    }
}

impl Default for ApiConfig {
    fn default() -> (r: Self)
        ensures
            r.enabled,
            r.max_request_size == 1048576,
    {
        let mut cors_origins: Vec<String> = Vec::new();
        cors_origins.push("*".to_string());
        ApiConfig {
            enabled: true,
            listen_address: "127.0.0.1:8080".to_string(),
            cors_origins,
            max_request_size: 1048576,
        }
    }
}

impl Default for MetricsConfig {
    fn default() -> (r: Self)
        ensures
            !r.enabled,
    {
        MetricsConfig {
            enabled: false,
            listen_address: "127.0.0.1:9090".to_string(),
            namespace: "production_pos".to_string(),
        }
    }
}

impl Default for LoggingConfig {
    fn default() -> (r: Self)
        ensures
            r.format == LogFormat::Pretty,
            r.file is None,
    {
        LoggingConfig { level: "info".to_string(), format: LogFormat::Pretty, file: None }
    }
}

} // verus!
