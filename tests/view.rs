use swarm_monitor::cache::Cache;
use swarm_monitor::database::OnlineStatus;
use swarm_monitor::lokid_api::{Network, ServiceNodeRecord};
use swarm_monitor::node_pool::NodePool;
use swarm_monitor::report::{current_view, node_response};
use swarm_monitor::sn_api::SnodeStats;

fn node(key: &str, swarm: u64) -> ServiceNodeRecord {
    ServiceNodeRecord {
        public_ip: "127.0.0.1".to_string(),
        storage_port: 1,
        storage_lmq_port: 2,
        pubkey_x25519: String::new(),
        pubkey_ed25519: key.to_string(),
        swarm_id: swarm,
    }
}

#[test]
fn unknown_node_gets_placeholders() {
    let cache = Cache::new();
    let r = node_response(&"A".to_string(), &cache);
    assert_eq!(r.edkey, "A");
    assert_eq!(r.version, "?");
    assert_eq!(r.total_stored, -1);
    assert!(!r.online);
    assert_eq!((r.connections_in, r.store_requests, r.retrieve_requests), (0, 0, 0));
}

#[test]
fn known_node_reports_cache() {
    let mut cache = Cache::new();
    let a = "A".to_string();
    cache.update_status(&a, OnlineStatus::ONLINE, 5);
    cache.update_node_stats(
        &a,
        &SnodeStats {
            height: 1,
            version: "2.1.0".to_string(),
            reset_time: 0,
            total_stored: 1234,
            connections_in: 6,
            previous_period_store_requests: 70,
            previous_period_retrieve_requests: 80,
        },
    );
    let r = node_response(&a, &cache);
    assert!(r.online);
    assert_eq!(r.version, "2.1.0");
    assert_eq!(r.total_stored, 1234);
    assert_eq!((r.connections_in, r.store_requests, r.retrieve_requests), (6, 70, 80));
    cache.update_status(&a, OnlineStatus::OFFLINE, 6);
    assert!(!node_response(&a, &cache).online);
}

#[test]
fn view_lists_registry_members_only() {
    let mut pool = NodePool::new(&Network::mainnet());
    pool.update_pool(vec![node("A", 1), node("B", 2)]);
    let mut cache = Cache::new();
    cache.update_status(&"A".to_string(), OnlineStatus::ONLINE, 1);
    cache.update_status(&"Z".to_string(), OnlineStatus::ONLINE, 1);
    let mut v = current_view(&pool, &cache);
    v.sort_by(|x, y| x.1.edkey.cmp(&y.1.edkey));
    assert_eq!(v.len(), 2);
    assert_eq!((v[0].0, v[0].1.edkey.as_str(), v[0].1.online), (1, "A", true));
    assert_eq!((v[1].0, v[1].1.edkey.as_str(), v[1].1.online), (2, "B", false));
}
