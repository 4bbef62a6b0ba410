//! The tunables of the tracker.

use crate::access_list::{AccessListConfig, AccessListMode};
use vstd::prelude::*;

verus! {

/// Where the tracker listens and how it polls.
#[derive(Clone, Debug)]
pub struct NetworkConfig {
    /// The address to bind to, as text.
    pub address: String,
    /// Whether WebSocket connections are wrapped in TLS.
    pub use_tls: bool,
    /// Path of the PKCS#12 file with the TLS identity.
    pub tls_pkcs12_path: String,
    /// The longest that a socket worker waits for readiness.
    pub poll_timeout_milliseconds: u64,
    /// How many readiness events one poll may return.
    pub poll_event_capacity: usize,
    /// How many datagrams a socket worker takes before it turns to its
    /// responses.
    pub max_receive_batch: usize,
}

/// How often the statistics are collected.
#[derive(Clone, Copy, Debug, PartialEq, Eq)]
pub struct StatisticsConfig {
    /// Seconds between two snapshots; zero for none.
    pub interval: u64,
}

impl StatisticsConfig {
    /// Whether statistics are collected at all.
    pub fn active(&self) -> (active: bool)
        ensures
            active == (self.interval != 0),
    {
        self.interval != 0
    }
}

/// Everything that can be set.
#[derive(Clone, Debug)]
pub struct Config {
    /// The number of workers that own a socket.
    pub socket_workers: usize,
    /// The number of workers that own a shard of the swarm store.
    pub request_workers: usize,
    /// The capacity of each channel between two workers; zero for channels
    /// that never refuse a message.
    pub worker_channel_size: usize,
    /// The seconds after which a peer is told to announce again.
    pub peer_announce_interval: u32,
    /// How many intervals a peer may let pass before it counts as gone.
    pub peer_tolerance_factor: u32,
    /// The most peers that an announce is answered with.
    pub max_peers: usize,
    /// The most torrents that a scrape is answered for.
    pub max_scrape_torrents: usize,
    /// The seconds for which a connection id is accepted at most; the secret
    /// is replaced twice in that time.
    pub connection_id_lifetime: u64,
    /// The seconds between two cleaning passes.
    pub cleaning_interval: u64,
    /// The seconds for which a WebSocket connection may stay silent.
    pub max_connection_age: u64,
    pub access_list: AccessListConfig,
    pub network: NetworkConfig,
    pub statistics: StatisticsConfig,
}

/// Why a configuration cannot be run.
#[derive(Clone, Copy, Debug, PartialEq, Eq)]
pub enum ConfigError {
    NoSocketWorkers,
    NoRequestWorkers,
}

impl Default for Config {
    fn default() -> (config: Self)
        ensures
            config.socket_workers == 1,
            config.request_workers == 1,
            config.worker_channel_size == 0,
            config.peer_announce_interval == 120,
            config.peer_tolerance_factor == 2,
            config.max_peers == 255,
            config.max_scrape_torrents == 74,
            config.connection_id_lifetime == 120,
            config.cleaning_interval == 30,
            config.max_connection_age == 300,
            config.access_list.mode is Ignore,
            config.access_list.path@ == Seq::<char>::empty(),
            config.network.address@ == "0.0.0.0:3000"@,
            config.network.use_tls == false,
            config.network.tls_pkcs12_path@ == Seq::<char>::empty(),
            config.network.poll_timeout_milliseconds == 50,
            config.network.poll_event_capacity == 4096,
            config.network.max_receive_batch == 128,
            config.statistics.interval == 0,
            config.check() is Ok,
    {
        Config {
            socket_workers: 1,
            request_workers: 1,
            worker_channel_size: 0,
            peer_announce_interval: 120,
            peer_tolerance_factor: 2,
            max_peers: 255,
            max_scrape_torrents: 74,
            connection_id_lifetime: 120,
            cleaning_interval: 30,
            max_connection_age: 300,
            access_list: AccessListConfig { mode: AccessListMode::Ignore, path: String::new() },
            network: NetworkConfig {
                address: "0.0.0.0:3000".to_string(),
                use_tls: false,
                tls_pkcs12_path: String::new(),
                poll_timeout_milliseconds: 50,
                poll_event_capacity: 4096,
                max_receive_batch: 128,
            },
            statistics: StatisticsConfig { interval: 0 },
        }
    }
}

impl Config {
    /// What [`Config::validate`] returns.
    pub open spec fn check(&self) -> Result<(), ConfigError> {
        if self.socket_workers == 0 {
            Err(ConfigError::NoSocketWorkers)
        } else if self.request_workers == 0 {
            Err(ConfigError::NoRequestWorkers)
        } else {
            Ok(())
        }
    }

    /// Whether the tracker can start with this configuration: it needs a
    /// socket worker and a request worker.
    pub fn validate(&self) -> (checked: Result<(), ConfigError>)
        ensures
            checked == self.check(),
    {
        if self.socket_workers == 0 {
            Err(ConfigError::NoSocketWorkers)
        } else if self.request_workers == 0 {
            Err(ConfigError::NoRequestWorkers)
        } else {
            Ok(())
        }
    }
}

} // verus!
