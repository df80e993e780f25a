use pecs_registry::config::RegistryConfig;
use pecs_registry::directory::{snapshot_file_name, ServiceDirectory};
use pecs_registry::error::RegistryError;
use pecs_registry::instance::{Endpoint, ServiceInstance};
use pecs_registry::selector::consistent_hash::compute_fingerprint;
use pecs_registry::selector::{
    ConsistentHashSelector, RoundRobinSelector, SelectContext, Selector, WeightedRoundRobinSelector,
};

fn node(service: &str, id: &str, weight: u32) -> ServiceInstance {
    ServiceInstance::new_http(id, "default", "dev", service, Endpoint::new("127.0.0.1", 8000)).with_weight(weight)
}

fn pick_id<S: Selector>(sel: &mut S, ctx: &SelectContext, instances: &[ServiceInstance]) -> String {
    sel.select(ctx, instances).unwrap().service_id.clone()
}

#[test]
fn consistent_hash_rebuilds_when_ids_change_under_equal_fingerprint() {
    let first = vec![node("s", "ab", 100), node("s", "c", 100)];
    let second = vec![node("s", "a", 100), node("s", "bc", 100)];
    assert_eq!(compute_fingerprint(&first), compute_fingerprint(&second));
    let mut used = ConsistentHashSelector::with_virtual_nodes(50);
    let mut picked_bc = false;
    for i in 0..200 {
        let ctx = SelectContext::new("s").with_key(&format!("key-{i}"));
        let _ = pick_id(&mut used, &ctx, &first);
        let mut fresh = ConsistentHashSelector::with_virtual_nodes(50);
        let a = pick_id(&mut used, &ctx, &second);
        let b = pick_id(&mut fresh, &ctx, &second);
        assert_eq!(a, b);
        if a == "bc" {
            picked_bc = true;
        }
    }
    assert!(picked_bc);
}

#[test]
fn consistent_hash_routing_key_fallback() {
    let instances = vec![node("s", "n1", 100), node("s", "n2", 100), node("s", "n3", 100)];
    for i in 0..50 {
        let k = format!("user-{i}");
        let mut sel = ConsistentHashSelector::new();
        let by_key_and_ip = pick_id(&mut sel, &SelectContext::new("s").with_key(&k).with_client_ip("10.0.0.1"), &instances);
        let by_key = pick_id(&mut sel, &SelectContext::new("s").with_key(&k), &instances);
        let by_ip = pick_id(&mut sel, &SelectContext::new("s").with_client_ip(&k), &instances);
        assert_eq!(by_key_and_ip, by_key);
        assert_eq!(by_key, by_ip);
    }
    let mut sel = ConsistentHashSelector::new();
    let by_name = pick_id(&mut sel, &SelectContext::new("s"), &instances);
    let by_name_key = pick_id(&mut sel, &SelectContext::new("s").with_key("s"), &instances);
    assert_eq!(by_name, by_name_key);
}

#[test]
fn consistent_hash_adding_a_node_moves_keys_only_onto_it() {
    let before = vec![node("s", "n1", 100), node("s", "n2", 100), node("s", "n3", 100)];
    let mut after = before.clone();
    after.push(node("s", "n4", 100));
    let mut s1 = ConsistentHashSelector::new();
    let mut s2 = ConsistentHashSelector::new();
    for i in 0..300 {
        let ctx = SelectContext::new("s").with_key(&format!("k{i}"));
        let old = pick_id(&mut s1, &ctx, &before);
        let new = pick_id(&mut s2, &ctx, &after);
        assert!(new == old || new == "n4");
    }
}

#[test]
fn round_robin_counts_per_service() {
    let a = vec![node("a", "a1", 100), node("a", "a2", 100), node("a", "a3", 100)];
    let b = vec![node("b", "b1", 100), node("b", "b2", 100)];
    let one = vec![node("a", "solo", 100)];
    let mut sel = RoundRobinSelector::new();
    let ca = SelectContext::new("a");
    let cb = SelectContext::new("b");
    assert_eq!(pick_id(&mut sel, &ca, &a), "a1");
    assert_eq!(pick_id(&mut sel, &cb, &b), "b1");
    assert_eq!(pick_id(&mut sel, &ca, &one), "solo");
    assert_eq!(pick_id(&mut sel, &cb, &b), "b2");
    assert_eq!(pick_id(&mut sel, &ca, &a), "a2");
    assert_eq!(pick_id(&mut sel, &ca, &a), "a3");
    assert_eq!(pick_id(&mut sel, &cb, &b), "b1");
    assert_eq!(pick_id(&mut sel, &ca, &a), "a1");
}

#[test]
fn weighted_round_robin_period_and_counts() {
    // weights 1.0, 2.0, 3.0 (a weight below 1.0 counts as 1.0)
    let instances = vec![node("s", "x", 50), node("s", "y", 200), node("s", "z", 300)];
    let mut sel = WeightedRoundRobinSelector::new();
    let ctx = SelectContext::new("s");
    let picks: Vec<String> = (0..12).map(|_| pick_id(&mut sel, &ctx, &instances)).collect();
    let first: Vec<&str> = picks[..6].iter().map(|s| s.as_str()).collect();
    assert_eq!(first.iter().filter(|p| **p == "x").count(), 1);
    assert_eq!(first.iter().filter(|p| **p == "y").count(), 2);
    assert_eq!(first.iter().filter(|p| **p == "z").count(), 3);
    assert_eq!(picks[..6], picks[6..]);
}

#[test]
fn maps_compare_regardless_of_insertion_order() {
    let a = node("s", "n", 100).with_metadata("env", "prod").with_metadata("zone", "z1");
    let b = node("s", "n", 100).with_metadata("zone", "z1").with_metadata("env", "prod");
    assert_eq!(a, b);
    let c = node("s", "n", 100).with_metadata("zone", "z2").with_metadata("env", "prod");
    assert_ne!(a, c);
}

#[test]
fn directory_recovers_a_saved_snapshot_when_the_fetch_fails() {
    assert_eq!(snapshot_file_name("payment-svc"), "payment-svc.json");
    let saved = vec![node("payment-svc", "pay-node-01", 100), node("payment-svc", "pay-node-02", 100)];

    let mut dir = ServiceDirectory::new();
    let ok = dir.settle_fetch("payment-svc", Ok(saved.clone()), None).unwrap();
    assert_eq!(ok.len(), 2);

    let mut cold = ServiceDirectory::new();
    let down = Err(RegistryError::Connection("cluster completely down".to_string()));
    let recovered = cold.settle_fetch("payment-svc", down.clone(), Some(saved.clone())).unwrap();
    let ids: Vec<&str> = recovered.iter().map(|i| i.service_id.as_str()).collect();
    assert_eq!(ids, vec!["pay-node-01", "pay-node-02"]);
    assert_eq!(cold.get_instances("payment-svc").len(), 2);

    let mut bare = ServiceDirectory::new();
    assert_eq!(bare.settle_fetch("payment-svc", down.clone(), None), down);
    assert!(bare.get_instances("payment-svc").is_empty());
}

#[test]
fn snapshot_directory_and_millisecond_interval() {
    let mut c = RegistryConfig::default();
    assert_eq!(c.snapshot_dir(), None);
    c.disk_cache_dir = Some("/var/cache/pecs".to_string());
    assert_eq!(c.snapshot_dir(), None);
    c.disk_cache_enabled = true;
    assert_eq!(c.snapshot_dir(), Some("/var/cache/pecs".to_string()));

    assert_eq!(ServiceDirectory::new().reconcile_interval_millis(), 60_000);
    assert_eq!(ServiceDirectory::with_reconcile_interval_millis(250).reconcile_interval_millis(), 250);
    assert_eq!(ServiceDirectory::with_reconcile_interval(2).reconcile_interval_millis(), 2_000);
}

#[test]
fn weighted_round_robin_period_with_common_divisor() {
    // weights 2.0, 4.0, 6.0 share the divisor 200: a block of 6 calls picks them 1, 2 and 3 times
    let instances = vec![node("s", "x", 200), node("s", "y", 400), node("s", "z", 600)];
    let mut sel = WeightedRoundRobinSelector::new();
    let ctx = SelectContext::new("s");
    let picks: Vec<String> = (0..18).map(|_| pick_id(&mut sel, &ctx, &instances)).collect();
    for block in picks.chunks(6) {
        assert_eq!(block.iter().filter(|p| *p == "x").count(), 1);
        assert_eq!(block.iter().filter(|p| *p == "y").count(), 2);
        assert_eq!(block.iter().filter(|p| *p == "z").count(), 3);
        assert_eq!(block, &picks[..6]);
    }
}
