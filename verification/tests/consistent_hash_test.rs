use pecs_registry::instance::{Endpoint, ServiceInstance};
use pecs_registry::selector::consistent_hash::{compute_fingerprint, fnv1a_hash};
use pecs_registry::selector::{ConsistentHashSelector, SelectContext, Selector};
use std::collections::HashMap;

fn make_instance(service_name: &str, node_id: &str, port: u16) -> ServiceInstance {
    ServiceInstance::new_http(node_id, "test", "default", service_name, Endpoint::new("127.0.0.1", port))
}

#[test]
fn test_consistent_hash_determinism_and_affinity() {
    let mut selector = ConsistentHashSelector::with_virtual_nodes(120);
    let instances = vec![
        make_instance("user-svc", "node-1", 8001),
        make_instance("user-svc", "node-2", 8002),
        make_instance("user-svc", "node-3", 8003),
    ];

    let ctx1 = SelectContext::new("user-svc").with_key("user:account:1001");
    let ctx2 = SelectContext::new("user-svc").with_key("user:account:1002");
    let ctx3 = SelectContext::new("user-svc").with_key("user:account:1003");

    let target1_a = selector.select(&ctx1, &instances).unwrap().service_id.clone();
    let target1_b = selector.select(&ctx1, &instances).unwrap().service_id.clone();
    assert_eq!(target1_a, target1_b);

    let target2_a = selector.select(&ctx2, &instances).unwrap().service_id.clone();
    let target2_b = selector.select(&ctx2, &instances).unwrap().service_id.clone();
    assert_eq!(target2_a, target2_b);

    let target3_a = selector.select(&ctx3, &instances).unwrap().service_id.clone();
    let target3_b = selector.select(&ctx3, &instances).unwrap().service_id.clone();
    assert_eq!(target3_a, target3_b);
}

#[test]
fn test_consistent_hash_distribution() {
    let mut selector = ConsistentHashSelector::with_virtual_nodes(150);
    let instances = vec![
        make_instance("order-svc", "order-1", 8001),
        make_instance("order-svc", "order-2", 8002),
        make_instance("order-svc", "order-3", 8003),
    ];

    let mut hit_counts: HashMap<String, usize> = HashMap::new();

    for i in 0..1000 {
        let key = format!("order_id_{i}");
        let ctx = SelectContext::new("order-svc").with_key(&key);
        let chosen = selector.select(&ctx, &instances).unwrap();
        *hit_counts.entry(chosen.service_id.clone()).or_insert(0) += 1;
    }

    assert_eq!(hit_counts.len(), 3);
    for (node, count) in hit_counts {
        println!("node {node} hits: {count}");
        assert!(count > 150, "too few hits, uneven ring: {count}");
    }
}

#[test]
fn test_consistent_hash_node_scaling_stability() {
    let mut selector = ConsistentHashSelector::with_virtual_nodes(100);
    let initial_nodes = vec![
        make_instance("cache-svc", "cache-1", 7001),
        make_instance("cache-svc", "cache-2", 7002),
        make_instance("cache-svc", "cache-3", 7003),
    ];

    let mut initial_mappings = HashMap::new();
    for i in 0..500 {
        let key = format!("cache_key_{i}");
        let ctx = SelectContext::new("cache-svc").with_key(&key);
        let chosen = selector.select(&ctx, &initial_nodes).unwrap();
        initial_mappings.insert(key, chosen.service_id.clone());
    }

    let mut expanded_nodes = initial_nodes.clone();
    expanded_nodes.push(make_instance("cache-svc", "cache-4", 7004));

    let mut unchanged_keys = 0;
    for (key, old_node) in &initial_mappings {
        let ctx = SelectContext::new("cache-svc").with_key(key);
        let new_chosen = selector.select(&ctx, &expanded_nodes).unwrap();
        if new_chosen.service_id == *old_node {
            unchanged_keys += 1;
        }
    }

    let retention_rate = unchanged_keys as f64 / 500.0;
    println!("retention after adding a node: {:.2}%", retention_rate * 100.0);
    assert!(
        retention_rate >= 0.60 && retention_rate <= 0.90,
        "remapping ratio out of range: {retention_rate}"
    );
}

/// The same FNV-1a + finaliser as a plain reference implementation.
fn reference_hash(s: &str) -> u64 {
    let mut hash: u64 = 0xcbf29ce484222325;
    for byte in s.as_bytes() {
        hash ^= *byte as u64;
        hash = hash.wrapping_mul(0x100000001b3);
    }
    hash ^= hash >> 33;
    hash = hash.wrapping_mul(0xff51afd7ed558ccd);
    hash ^= hash >> 33;
    hash = hash.wrapping_mul(0xc4ceb9fe1a85ec53);
    hash ^= hash >> 33;
    hash
}

#[test]
fn hash_matches_reference_values() {
    for s in ["", "a", "user:account:1001", "node-1#v0", "节点"] {
        assert_eq!(fnv1a_hash(s), reference_hash(s));
    }
    // FNV-1a offset basis, mixed, for the empty string
    assert_eq!(fnv1a_hash(""), reference_hash(""));
    assert_ne!(fnv1a_hash("a"), fnv1a_hash("b"));
}

#[test]
fn fingerprint_is_unmixed_fnv_over_ids() {
    let instances = vec![make_instance("s", "ab", 1), make_instance("s", "c", 2)];
    let mut h: u64 = 0xcbf29ce484222325;
    for b in "abc".bytes() {
        h ^= b as u64;
        h = h.wrapping_mul(0x100000001b3);
    }
    assert_eq!(compute_fingerprint(&instances), h);
    let none: Vec<ServiceInstance> = vec![];
    assert_eq!(compute_fingerprint(&none), 0xcbf29ce484222325);
}

#[test]
fn routing_falls_back_to_client_ip_then_service_name() {
    let mut selector = ConsistentHashSelector::new();
    let instances = vec![
        make_instance("svc", "n1", 1),
        make_instance("svc", "n2", 2),
        make_instance("svc", "n3", 3),
    ];
    let by_ip = SelectContext::new("svc").with_client_ip("10.0.0.7");
    let by_key = SelectContext::new("svc").with_key("10.0.0.7");
    let a = selector.select(&by_ip, &instances).unwrap().service_id.clone();
    let b = selector.select(&by_key, &instances).unwrap().service_id.clone();
    assert_eq!(a, b);
    let by_name = SelectContext::new("svc");
    let by_name_key = SelectContext::new("svc").with_key("svc");
    let c = selector.select(&by_name, &instances).unwrap().service_id.clone();
    let d = selector.select(&by_name_key, &instances).unwrap().service_id.clone();
    assert_eq!(c, d);
}

#[test]
fn single_and_empty_candidates() {
    let mut selector = ConsistentHashSelector::with_virtual_nodes(0);
    let ctx = SelectContext::new("svc").with_key("k");
    let none: Vec<ServiceInstance> = vec![];
    assert!(selector.select(&ctx, &none).is_none());
    let one = vec![make_instance("svc", "only", 1)];
    assert_eq!(selector.select(&ctx, &one).unwrap().service_id, "only");
    // zero virtual nodes is raised to one, so two candidates still map
    let two = vec![make_instance("svc", "a", 1), make_instance("svc", "b", 2)];
    let id = selector.select(&ctx, &two).unwrap().service_id.clone();
    assert!(id == "a" || id == "b");
}
