//! Core of a BitTorrent tracker: the access list, the connection-id
//! challenge, the sharded swarm store and the decisions of its workers,
//! each stated as a contract and proved.

pub mod access_list;
pub mod be;
pub mod cleaner;
pub mod config;
pub mod connection_id;
pub mod dispatch;
pub mod hash_set;
pub mod hex;
pub mod id_map;
pub mod ids;
pub mod peer;
pub mod protocol;
pub mod request_worker;
pub mod socket_worker;
pub mod statistics;
pub mod supervisor;
pub mod swarm;
pub mod token_map;
pub mod torrent;
pub mod ws;
