use std::collections::HashSet;

use swarm_monitor::lokid_api::{Network, ServiceNodeRecord};
use swarm_monitor::node_pool::NodePool;
use swarm_monitor::node_poller::PROBE_BATCH_SIZE;

fn node(key: &str, ip: &str, swarm: u64) -> ServiceNodeRecord {
    ServiceNodeRecord {
        public_ip: ip.to_string(),
        storage_port: 22021,
        storage_lmq_port: 22020,
        pubkey_x25519: format!("x-{}", key),
        pubkey_ed25519: key.to_string(),
        swarm_id: swarm,
    }
}

fn keys(batch: &[ServiceNodeRecord]) -> Vec<String> {
    batch.iter().map(|r| r.pubkey_ed25519.clone()).collect()
}

fn pool_with(names: &[&str]) -> NodePool {
    let mut pool = NodePool::new(&Network::mainnet());
    let incoming: Vec<ServiceNodeRecord> =
        names.iter().enumerate().map(|(i, n)| node(n, "10.0.0.1", i as u64)).collect();
    pool.update_pool(incoming);
    pool
}

#[test]
fn three_nodes_two_batches_cover_all() {
    let mut pool = pool_with(&["A", "B", "C"]);
    let first = keys(&pool.get_next_nodes(2));
    let second = keys(&pool.get_next_nodes(2));
    assert_eq!(first.len(), 2);
    assert_eq!(second.len(), 1);
    let mut all: Vec<String> = first.iter().chain(second.iter()).cloned().collect();
    all.sort();
    assert_eq!(all, vec!["A".to_string(), "B".to_string(), "C".to_string()]);
}

#[test]
fn each_node_once_per_cycle_over_several_cycles() {
    let names: Vec<String> = (0..23).map(|i| format!("node{:02}", i)).collect();
    let refs: Vec<&str> = names.iter().map(|s| s.as_str()).collect();
    let mut pool = pool_with(&refs);
    for _cycle in 0..3 {
        let mut seen: HashSet<String> = HashSet::new();
        // 23 nodes in batches of 10: three ticks per cycle
        for expected in [10usize, 10, 3] {
            let batch = keys(&pool.get_next_nodes(PROBE_BATCH_SIZE));
            assert_eq!(batch.len(), expected);
            for k in batch {
                assert!(seen.insert(k), "an identity came twice in one cycle");
            }
        }
        assert_eq!(seen.len(), 23);
    }
}

#[test]
fn batch_records_are_the_registry_records() {
    let mut pool = pool_with(&["A", "B"]);
    let batch = pool.get_next_nodes(5);
    assert_eq!(batch.len(), 2);
    for r in &batch {
        let held = pool.all_nodes.get(&r.pubkey_ed25519).unwrap();
        assert_eq!(held.public_ip, r.public_ip);
        assert_eq!(held.swarm_id, r.swarm_id);
    }
}

#[test]
fn nodes_added_mid_cycle_wait_for_the_next_refill() {
    let mut pool = pool_with(&["A", "B", "C"]);
    let first = keys(&pool.get_next_nodes(1));
    assert_eq!(first.len(), 1);
    pool.update_pool(vec![node("D", "10.0.0.9", 9)]);
    let rest = keys(&pool.get_next_nodes(10));
    assert_eq!(rest.len(), 2);
    assert!(!rest.contains(&"D".to_string()));
    let next = keys(&pool.get_next_nodes(10));
    assert_eq!(next.len(), 4);
    assert!(next.contains(&"D".to_string()));
}

#[test]
fn replaced_record_is_returned_in_its_new_form() {
    let mut pool = pool_with(&["A"]);
    pool.update_pool(vec![node("A", "192.168.1.1", 42)]);
    let batch = pool.get_next_nodes(1);
    assert_eq!(batch.len(), 1);
    assert_eq!(batch[0].public_ip, "192.168.1.1");
    assert_eq!(batch[0].swarm_id, 42);
}

#[test]
fn empty_registry_gives_empty_batch() {
    let mut pool = NodePool::new(&Network::testnet());
    assert!(pool.get_next_nodes(10).is_empty());
    assert!(pool.network().is_testnet);
}

#[test]
fn zero_sized_batch_takes_nothing() {
    let mut pool = pool_with(&["A", "B"]);
    assert!(pool.get_next_nodes(0).is_empty());
    assert_eq!(pool.get_next_nodes(10).len(), 2);
}

#[test]
fn merge_twice_equals_merge_once() {
    let list = vec![node("A", "1.1.1.1", 1), node("B", "2.2.2.2", 2), node("A", "3.3.3.3", 3)];
    let mut once = NodePool::new(&Network::mainnet());
    once.update_pool(list.clone());
    let mut twice = NodePool::new(&Network::mainnet());
    twice.update_pool(list.clone());
    twice.update_pool(list);
    assert_eq!(once.all_nodes.len(), 2);
    assert_eq!(twice.all_nodes.len(), 2);
    for k in ["A", "B"] {
        let a = once.all_nodes.get(&k.to_string()).unwrap();
        let b = twice.all_nodes.get(&k.to_string()).unwrap();
        assert_eq!(a.public_ip, b.public_ip);
        assert_eq!(a.swarm_id, b.swarm_id);
    }
    // the later of two records for one identity wins
    assert_eq!(once.all_nodes.get(&"A".to_string()).unwrap().public_ip, "3.3.3.3");
}

#[test]
fn failed_fetch_keeps_registry_then_success_applies() {
    let mut pool = pool_with(&["A"]);
    pool.apply_directory_answer(Err("connection refused".to_string()));
    assert_eq!(pool.all_nodes.len(), 1);
    assert_eq!(pool.all_nodes.get(&"A".to_string()).unwrap().public_ip, "10.0.0.1");
    pool.apply_directory_answer(Ok(vec![node("A", "10.0.0.2", 0), node("B", "10.0.0.3", 1)]));
    assert_eq!(pool.all_nodes.len(), 2);
    assert_eq!(pool.all_nodes.get(&"A".to_string()).unwrap().public_ip, "10.0.0.2");
    assert!(pool.all_nodes.get(&"B".to_string()).is_some());
}

#[test]
fn network_constants() {
    let m = Network::mainnet();
    assert!(!m.is_testnet);
    assert_eq!(m.seed_url, "http://public.loki.foundation:22023/json_rpc");
    let t = Network::testnet();
    assert_eq!(t.seed_url, "http://public.loki.foundation:38157/json_rpc");
}

#[test]
fn refills_are_shuffled() {
    let names: Vec<String> = (0..10).map(|i| format!("n{}", i)).collect();
    let refs: Vec<&str> = names.iter().map(|s| s.as_str()).collect();
    let mut pool = pool_with(&refs);
    let first = keys(&pool.get_next_nodes(10));
    let mut differs = false;
    for _ in 0..20 {
        let next = keys(&pool.get_next_nodes(10));
        let mut sorted = next.clone();
        sorted.sort();
        let mut expected = names.clone();
        expected.sort();
        assert_eq!(sorted, expected);
        if next != first {
            differs = true;
        }
    }
    assert!(differs, "twenty refills all came out in one order");
}
