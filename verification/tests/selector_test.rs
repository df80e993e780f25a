use pecs_registry::instance::{Endpoint, ServiceInstance};
use pecs_registry::selector::{
    RandomSelector, RoundRobinSelector, SelectContext, Selector, TagFilterSelector,
    WeightedRoundRobinSelector,
};

/// Weights are kept in hundredths.
fn hundredths(weight: f64) -> u32 {
    (weight * 100.0) as u32
}

fn mock_instance(id: &str, weight: f64) -> ServiceInstance {
    ServiceInstance::new_http(
        id,
        "default",
        "dev",
        "demo-service",
        Endpoint::new("127.0.0.1", 8080),
    )
    .with_weight(hundredths(weight))
}

#[test]
fn test_round_robin_selector() {
    let mut selector = RoundRobinSelector::new();
    let ctx = SelectContext::new("demo-service");
    let instances = vec![
        mock_instance("node-1", 1.0),
        mock_instance("node-2", 1.0),
        mock_instance("node-3", 1.0),
    ];

    let r1 = selector.select(&ctx, &instances).unwrap().service_id.clone();
    let r2 = selector.select(&ctx, &instances).unwrap().service_id.clone();
    let r3 = selector.select(&ctx, &instances).unwrap().service_id.clone();
    let r4 = selector.select(&ctx, &instances).unwrap().service_id.clone();

    assert_eq!(r1, "node-1");
    assert_eq!(r2, "node-2");
    assert_eq!(r3, "node-3");
    assert_eq!(r4, "node-1");
}

#[test]
fn test_weighted_round_robin_selector() {
    let mut selector = WeightedRoundRobinSelector::new();
    let ctx = SelectContext::new("demo-service");
    let instances = vec![
        mock_instance("node-A", 4.0),
        mock_instance("node-B", 2.0),
        mock_instance("node-C", 1.0),
    ];

    let mut counts = std::collections::HashMap::new();
    for _ in 0..7 {
        let chosen = selector.select(&ctx, &instances).unwrap();
        *counts.entry(chosen.service_id.clone()).or_insert(0) += 1;
    }

    assert_eq!(counts.get("node-A"), Some(&4));
    assert_eq!(counts.get("node-B"), Some(&2));
    assert_eq!(counts.get("node-C"), Some(&1));
}

#[test]
fn test_canary_tag_filter_selector() {
    let base_selector = RoundRobinSelector::new();
    let mut canary_selector = TagFilterSelector::new(base_selector);

    let mut inst1 = mock_instance("node-v1", 1.0);
    inst1.metadata.insert("version".to_string(), "v1".to_string());

    let mut inst2 = mock_instance("node-v2", 1.0);
    inst2.metadata.insert("version".to_string(), "v2".to_string());

    let instances = vec![inst1, inst2];

    let ctx_v2 = SelectContext::new("demo-service").with_tag("version", "v2");
    let chosen_v2 = canary_selector.select(&ctx_v2, &instances).unwrap();
    assert_eq!(chosen_v2.service_id, "node-v2");

    let ctx_none = SelectContext::new("demo-service").with_tag("version", "v3");
    let chosen_fallback = canary_selector.select(&ctx_none, &instances).unwrap();
    assert!(chosen_fallback.service_id == "node-v1" || chosen_fallback.service_id == "node-v2");
}

#[test]
fn round_robin_single_and_empty() {
    let mut selector = RoundRobinSelector::new();
    let ctx = SelectContext::new("svc");
    let none: Vec<ServiceInstance> = vec![];
    assert!(selector.select(&ctx, &none).is_none());
    let one = vec![mock_instance("solo", 1.0)];
    for _ in 0..3 {
        assert_eq!(selector.select(&ctx, &one).unwrap().service_id, "solo");
    }
    // a single candidate never advances the counter
    assert_eq!(selector.get_counter("svc"), 0);
}

#[test]
fn round_robin_counters_are_per_service() {
    let mut selector = RoundRobinSelector::new();
    let a = SelectContext::new("a");
    let b = SelectContext::new("b");
    let instances = vec![mock_instance("x", 1.0), mock_instance("y", 1.0)];
    assert_eq!(selector.select(&a, &instances).unwrap().service_id, "x");
    assert_eq!(selector.select(&a, &instances).unwrap().service_id, "y");
    assert_eq!(selector.select(&b, &instances).unwrap().service_id, "x");
    assert_eq!(selector.get_counter("a"), 2);
    assert_eq!(selector.get_counter("b"), 1);
}

#[test]
fn weighted_first_pick_is_heaviest_and_sequence_is_smooth() {
    let mut selector = WeightedRoundRobinSelector::new();
    let ctx = SelectContext::new("demo-service");
    let instances = vec![
        mock_instance("node-A", 1.0),
        mock_instance("node-B", 5.0),
        mock_instance("node-C", 1.0),
    ];
    let picks: Vec<String> = (0..7)
        .map(|_| selector.select(&ctx, &instances).unwrap().service_id.clone())
        .collect();
    // nginx smooth weighted round-robin for 1:5:1
    assert_eq!(picks, vec!["node-B", "node-B", "node-A", "node-B", "node-C", "node-B", "node-B"]);
}

#[test]
fn weighted_weights_below_one_count_as_one() {
    let mut selector = WeightedRoundRobinSelector::new();
    let ctx = SelectContext::new("s");
    let instances = vec![mock_instance("p", 0.2), mock_instance("q", 0.5)];
    let a = selector.select(&ctx, &instances).unwrap().service_id.clone();
    let b = selector.select(&ctx, &instances).unwrap().service_id.clone();
    assert_eq!(a, "p");
    assert_eq!(b, "q");
}

#[test]
fn canary_without_fallback_picks_nothing_on_miss() {
    let mut selector = TagFilterSelector::new(RoundRobinSelector::new()).with_fallback(false);
    let instances = vec![mock_instance("node-v1", 1.0), mock_instance("node-v2", 1.0)];
    let ctx = SelectContext::new("demo-service").with_tag("version", "v9");
    assert!(selector.select(&ctx, &instances).is_none());
    // without a tag the inner selector is used
    let plain = SelectContext::new("demo-service");
    assert_eq!(selector.select(&plain, &instances).unwrap().service_id, "node-v1");
}

#[test]
fn canary_matches_group_namespace_and_id_substring() {
    let mut selector = TagFilterSelector::new(RoundRobinSelector::new()).with_fallback(false);
    let a = ServiceInstance::new_http("alpha-1", "ns-a", "grp-a", "svc", Endpoint::new("h", 1));
    let b = ServiceInstance::new_http("beta-canary-2", "ns-b", "grp-b", "svc", Endpoint::new("h", 2));
    let instances = vec![a, b];
    let by_group = SelectContext::new("svc").with_tag("any", "grp-b");
    assert_eq!(selector.select(&by_group, &instances).unwrap().service_id, "beta-canary-2");
    let by_ns = SelectContext::new("svc").with_tag("any", "ns-a");
    assert_eq!(selector.select(&by_ns, &instances).unwrap().service_id, "alpha-1");
    let by_id = SelectContext::new("svc").with_tag("any", "canary");
    assert_eq!(selector.select(&by_id, &instances).unwrap().service_id, "beta-canary-2");
}

#[test]
fn random_selector_picks_in_range() {
    let mut selector = RandomSelector::new();
    let ctx = SelectContext::new("s");
    let instances = vec![mock_instance("a", 1.0), mock_instance("b", 1.0), mock_instance("c", 1.0)];
    for _ in 0..20 {
        let id = selector.select(&ctx, &instances).unwrap().service_id.clone();
        assert!(id == "a" || id == "b" || id == "c");
    }
    assert_eq!(RandomSelector::select_with_nanos(&instances, 7), Some(1));
    assert_eq!(RandomSelector::select_with_nanos(&instances[..1], 7), Some(0));
    assert_eq!(RandomSelector::select_with_nanos(&instances[..0], 7), None);
}

#[test]
fn select_cloned_copies_the_pick() {
    let mut selector = RoundRobinSelector::new();
    let ctx = SelectContext::new("svc");
    let instances = vec![mock_instance("a", 1.0), mock_instance("b", 1.0)];
    let first = pecs_registry::selector::select_cloned(&mut selector, &ctx, &instances).unwrap();
    assert_eq!(first.service_id, "a");
    let none: Vec<ServiceInstance> = vec![];
    assert!(pecs_registry::selector::select_cloned(&mut selector, &ctx, &none).is_none());
    // the empty list did not advance the counter
    let second = pecs_registry::selector::select_cloned(&mut selector, &ctx, &instances).unwrap();
    assert_eq!(second.service_id, "b");
}
