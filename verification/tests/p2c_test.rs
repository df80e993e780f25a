use pecs_registry::instance::{Endpoint, ServiceInstance};
use pecs_registry::selector::{P2CSelector, SelectContext, Selector};

fn make_instance_with_weight(service_name: &str, node_id: &str, port: u16, weight: f64) -> ServiceInstance {
    ServiceInstance::new_http(node_id, "test", "default", service_name, Endpoint::new("127.0.0.1", port))
        .with_weight((weight * 100.0) as u32)
}

#[test]
fn test_p2c_load_avoidance() {
    let mut selector = P2CSelector::new();
    let instances = vec![
        make_instance_with_weight("rpc-svc", "node-busy", 9001, 1.0),
        make_instance_with_weight("rpc-svc", "node-free", 9002, 1.0),
    ];

    let ctx = SelectContext::new("rpc-svc");

    // node-busy is serving 10 requests
    let mut guards = Vec::new();
    for _ in 0..10 {
        guards.push(selector.acquire("node-busy"));
    }
    assert_eq!(selector.get_inflight_counter("node-busy"), 10);

    // node-free is idle
    assert_eq!(selector.get_inflight_counter("node-free"), 0);

    for _ in 0..20 {
        let chosen = selector.select(&ctx, &instances).unwrap();
        assert_eq!(chosen.service_id, "node-free");
    }
}

#[test]
fn test_p2c_guard_raii_inflight_tracking() {
    let mut selector = P2CSelector::new();
    let instances = vec![
        make_instance_with_weight("api-svc", "api-1", 8001, 1.0),
        make_instance_with_weight("api-svc", "api-2", 8002, 1.0),
    ];

    let ctx = SelectContext::new("api-svc");

    assert_eq!(selector.get_inflight_counter("api-1"), 0);
    assert_eq!(selector.get_inflight_counter("api-2"), 0);

    {
        let (target_id, guard) = {
            let (inst, guard) = selector.select_with_guard(&ctx, &instances).unwrap();
            (inst.service_id.clone(), guard)
        };

        if target_id == "api-1" {
            assert_eq!(selector.get_inflight_counter("api-1"), 1);
        } else {
            assert_eq!(selector.get_inflight_counter("api-2"), 1);
        }

        selector.release(guard);
    }

    assert_eq!(selector.get_inflight_counter("api-1"), 0);
    assert_eq!(selector.get_inflight_counter("api-2"), 0);
}

#[test]
fn test_p2c_weight_sensitivity() {
    let mut selector = P2CSelector::new();
    let instances = vec![
        make_instance_with_weight("calc-svc", "node-weak", 8001, 1.0),
        make_instance_with_weight("calc-svc", "node-strong", 8002, 3.0),
    ];

    let ctx = SelectContext::new("calc-svc");

    for _ in 0..10 {
        let chosen = selector.select(&ctx, &instances).unwrap();
        assert_eq!(chosen.service_id, "node-strong");
    }
}

#[test]
fn p2c_pick_two_is_distinct() {
    for len in 2..9usize {
        for seed in 0..200usize {
            let (a, b) = P2CSelector::pick_two(len, seed);
            assert!(a < len && b < len && a != b);
        }
    }
    assert_eq!(P2CSelector::pick_two(5, 13), (3, 1));
}

#[test]
fn p2c_seeded_selection_compares_two() {
    let mut selector = P2CSelector::new();
    let instances = vec![
        make_instance_with_weight("s", "a", 1, 1.0),
        make_instance_with_weight("s", "b", 2, 1.0),
        make_instance_with_weight("s", "c", 3, 1.0),
    ];
    // seed 4 compares positions 1 and 0; "a" (position 0) is busy, so position 1 wins
    let _g = selector.acquire("a");
    assert_eq!(selector.select_with_seed(&instances, 4), Some(1));
    assert_eq!(P2CSelector::pick_two(3, 4), (1, 0));
    // the sequence counter moved on by one: seed 4 + 1 = 5 compares 2 and 1,
    // both idle, and a tie goes to the first compared
    assert_eq!(P2CSelector::pick_two(3, 5), (2, 1));
    assert_eq!(selector.select_with_seed(&instances, 4), Some(2));
}

#[test]
fn p2c_release_undoes_acquire() {
    let mut selector = P2CSelector::new();
    let g1 = selector.acquire("x");
    let g2 = selector.acquire("x");
    assert_eq!(selector.get_inflight_counter("x"), 2);
    assert_eq!(g1.service_id(), "x");
    selector.release(g2);
    assert_eq!(selector.get_inflight_counter("x"), 1);
    selector.release(g1);
    assert_eq!(selector.get_inflight_counter("x"), 0);
}

#[test]
fn p2c_weight_floor_is_one_tenth() {
    let mut selector = P2CSelector::new();
    // weights 0.0 and 0.1 both score as 0.1
    let instances = vec![
        make_instance_with_weight("s", "zero", 1, 0.0),
        make_instance_with_weight("s", "tenth", 2, 0.1),
    ];
    let ctx = SelectContext::new("s");
    assert_eq!(selector.select(&ctx, &instances).unwrap().service_id, "zero");
    let _g = selector.acquire("zero");
    assert_eq!(selector.select(&ctx, &instances).unwrap().service_id, "tenth");
}
