//! The aggregated view that is served to callers: every known node, joined
//! with what the cache holds for it.

use vstd::prelude::*;
use vstd::string::StringExecFns;
use crate::cache::Cache;
use crate::database::OnlineStatus;
use crate::node_pool::NodePool;
use crate::registry::lists_exactly;

verus! {

/// What is reported for one node.
#[derive(Clone, Debug)]
pub struct NodeResponse {
    pub edkey: String,
    pub version: String,
    pub total_stored: i32,
    pub online: bool,
    pub connections_in: u32,
    /// in the previous hour-long period
    pub store_requests: u32,
    /// in the previous hour-long period
    pub retrieve_requests: u32,
}

/// `r` reports node `k` as the cache sees it: online only if its latest
/// status is, and with its latest stats, or placeholders where none arrived.
pub open spec fn describes(r: NodeResponse, k: Seq<char>, cache: &Cache) -> bool {
    &&& r.edkey@ == k
    &&& r.online == (cache.status_map@.contains_key(k) && cache.status_map@[k].status == OnlineStatus::ONLINE)
    &&& if cache.stats_map@.contains_key(k) {
        let s = cache.stats_map@[k];
        &&& r.version@ == s.version@
        &&& r.total_stored == s.total_stored as i32
        &&& r.connections_in == s.connections_in
        &&& r.store_requests == s.previous_period_store_requests
        &&& r.retrieve_requests == s.previous_period_retrieve_requests
    } else {
        &&& r.version@ == seq!['?']
        &&& r.total_stored == -1
        &&& r.connections_in == 0
        &&& r.store_requests == 0
        &&& r.retrieve_requests == 0
    }
}

/// The report for node `edkey`.
pub fn node_response(edkey: &String, cache: &Cache) -> (r: NodeResponse)
    ensures
        describes(r, edkey@, cache),
{
    let online = match cache.status_map.get(edkey.as_str()) {
        Some(v) => {
            let on = v.status == OnlineStatus::ONLINE;
            assert(on == (cache.status_map@[edkey@].status == OnlineStatus::ONLINE));
            on
        },
        None => false,
    };
    match cache.stats_map.get(edkey.as_str()) {
        Some(v) => {
            assert(*v == cache.stats_map@[edkey@]);
            NodeResponse {
                edkey: edkey.clone(),
                version: v.version.clone(),
                total_stored: v.total_stored as i32,
                online,
                connections_in: v.connections_in,
                store_requests: v.previous_period_store_requests,
                retrieve_requests: v.previous_period_retrieve_requests,
            }
        },
        None => {
            let version = String::from_str("?");
            proof {
                reveal_strlit("?");
                assert(version@ == seq!['?']);
            }
            NodeResponse {
                edkey: edkey.clone(),
                version,
                total_stored: -1,
                online,
                connections_in: 0,
                store_requests: 0,
                retrieve_requests: 0,
            }
        },
    }
}

/// The identities that a view reports.
pub open spec fn reported_keys(v: Seq<(u64, NodeResponse)>) -> Seq<Seq<char>> {
    v.map_values(|p: (u64, NodeResponse)| p.1.edkey@)
}

/// Every known node once, with its swarm, as the cache sees it. Membership
/// comes from the registry alone.
pub fn current_view(pool: &NodePool, cache: &Cache) -> (r: Vec<(u64, NodeResponse)>)
    requires
        pool.wf(),
    ensures
        reported_keys(r@).no_duplicates(),
        forall|k: Seq<char>| reported_keys(r@).contains(k) <==> pool.registry()@.contains_key(k),
        forall|i: int| #![trigger r@[i]] 0 <= i < r@.len() ==> {
            &&& r@[i].0 == pool.registry()@[r@[i].1.edkey@].swarm_id
            &&& describes(r@[i].1, r@[i].1.edkey@, cache)
        },
{
    let recs = pool.nodes().records();
    let mut out: Vec<(u64, NodeResponse)> = Vec::new();
    let mut i: usize = 0;
    while i < recs.len()
        invariant
            i <= recs@.len(),
            lists_exactly(recs@, pool.registry()@),
            out@.len() == i,
            forall|j: int| 0 <= j < i ==> #[trigger] out@[j].1.edkey@ == recs@[j].key(),
            forall|j: int| 0 <= j < i ==> {
                &&& #[trigger] out@[j].0 == recs@[j].swarm_id
                &&& describes(out@[j].1, recs@[j].key(), cache)
            },
        decreases recs@.len() - i,
    {
        let rec = &recs[i];
        let resp = node_response(&rec.pubkey_ed25519, cache);
        out.push((rec.swarm_id, resp));
        i = i + 1;
    }
    proof {
        let ks = crate::registry::keys_of(recs@);
        assert(reported_keys(out@) =~= ks);
        assert forall|j: int| #![trigger out@[j]] 0 <= j < out@.len() implies {
            &&& out@[j].0 == pool.registry()@[out@[j].1.edkey@].swarm_id
            &&& describes(out@[j].1, out@[j].1.edkey@, cache)
        } by {
            assert(pool.registry()@.contains_key(recs@[j].key()));
        }
        assert forall|k: Seq<char>| reported_keys(out@).contains(k) implies pool.registry()@.contains_key(k) by {
            let j = choose|j: int| 0 <= j < ks.len() && ks[j] == k;
            assert(pool.registry()@.contains_key(recs@[j].key()));
        }
    }
    out
}

} // verus!
