//! Tracks the members of a storage network: who they are, when each one is
//! due to be probed, and whether each one answered the last time it was.

pub mod database;
pub mod lokid_api;
pub mod sn_api;
pub mod registry;
pub mod node_pool;
pub mod cache;
pub mod node_poller;
pub mod report;
