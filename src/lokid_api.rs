//! What the directory service tells about a node, and which directory to ask.

use vstd::prelude::*;

verus! {

/// A node as the directory describes it. `pubkey_ed25519` is its identity.
#[derive(Clone, Debug)]
pub struct ServiceNodeRecord {
    pub public_ip: String,
    pub storage_port: u16,
    pub storage_lmq_port: u16,
    pub pubkey_x25519: String,
    pub pubkey_ed25519: String,
    pub swarm_id: u64,
}

impl ServiceNodeRecord {
    /// The identity under which the registry and the cache know this node.
    pub open spec fn key(&self) -> Seq<char> {
        self.pubkey_ed25519@
    }

    /// A copy of this record, field for field.
    pub fn cloned(&self) -> (r: ServiceNodeRecord)
        ensures
            r == *self,
    {
        ServiceNodeRecord {
            public_ip: self.public_ip.clone(),
            storage_port: self.storage_port,
            storage_lmq_port: self.storage_lmq_port,
            pubkey_x25519: self.pubkey_x25519.clone(),
            pubkey_ed25519: self.pubkey_ed25519.clone(),
            swarm_id: self.swarm_id,
        }
    }
}

/// A network to monitor: where its directory answers, and whether it is the test network.
#[derive(Clone, Copy, Debug)]
pub struct Network {
    pub seed_url: &'static str,
    pub is_testnet: bool,
}

pub const FOUNDATION_TESTNET_SEED: &'static str = "http://public.loki.foundation:38157/json_rpc";

pub const FOUNDATION_MAINNET_SEED: &'static str = "http://public.loki.foundation:22023/json_rpc";

impl Network {
    /// The test network, reached through the foundation's seed node.
    pub fn testnet() -> (r: Network)
        ensures
            r.is_testnet,
            r.seed_url == FOUNDATION_TESTNET_SEED,
    {
        Network { seed_url: FOUNDATION_TESTNET_SEED, is_testnet: true }
    }

    /// The main network, reached through the foundation's seed node.
    pub fn mainnet() -> (r: Network)
        ensures
            !r.is_testnet,
            r.seed_url == FOUNDATION_MAINNET_SEED,
    {
        Network { seed_url: FOUNDATION_MAINNET_SEED, is_testnet: false }
    }
}

} // verus!
