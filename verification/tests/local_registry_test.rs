use pecs_registry::directory::{ServiceDirectory, WatchAction, WatchInput, WatchLoop};
use pecs_registry::instance::{Endpoint, ServiceInstance};
use pecs_registry::provider::local::LocalRegistry;
use pecs_registry::selector::{select_cloned, RoundRobinSelector, SelectContext};
use pecs_registry::traits::{concerns, ServiceEvent};

fn http(id: &str, name: &str, port: u16) -> ServiceInstance {
    ServiceInstance::new_http(id, "default", "dev", name, Endpoint::new("127.0.0.1", port))
}

/// Feeds every event a watcher of `name` would receive into the directory.
fn deliver(dir: &mut ServiceDirectory, w: &mut WatchLoop, name: &str, event: ServiceEvent) {
    if concerns(&event, name) {
        assert_eq!(w.step(dir, name, WatchInput::Event(event)), WatchAction::Listen);
    }
}

#[test]
fn local_registry_crud_with_directory() {
    let mut local = LocalRegistry::new();
    let mut dir = ServiceDirectory::new();
    let mut rr = RoundRobinSelector::new();

    // first discovery: nothing cached, fetch, install, start a watcher
    assert!(dir.cached_snapshot("user-service").is_none());
    dir.install_snapshot("user-service", local.list_instances("user-service"));
    assert!(dir.begin_watch("user-service"));
    let mut w = WatchLoop::new();
    assert_eq!(w.step(&mut dir, "user-service", WatchInput::Connected), WatchAction::Listen);
    assert!(dir.cached_snapshot("user-service").unwrap().is_empty());

    let e = local.register(&http("inst-01", "user-service", 8001));
    deliver(&mut dir, &mut w, "user-service", e);
    let found = dir.cached_snapshot("user-service").unwrap();
    assert_eq!(found.len(), 1);
    assert_eq!(found[0].service_id, "inst-01");
    assert_eq!(found[0].http.as_ref().unwrap().port, 8001);

    let e = local.add_instance(http("inst-02", "user-service", 8002));
    deliver(&mut dir, &mut w, "user-service", e);
    let found = dir.get_instances("user-service");
    assert_eq!(found.len(), 2);

    // round-robin over two: first, second, first again
    let ctx = SelectContext::new("user-service");
    let s1 = select_cloned(&mut rr, &ctx, &found).unwrap();
    let s2 = select_cloned(&mut rr, &ctx, &found).unwrap();
    let s3 = select_cloned(&mut rr, &ctx, &found).unwrap();
    assert_ne!(s1.service_id, s2.service_id);
    assert_eq!(s1.service_id, s3.service_id);

    let e = local.remove_instance("user-service", "inst-01");
    deliver(&mut dir, &mut w, "user-service", e);
    let found = dir.get_instances("user-service");
    assert_eq!(found.len(), 1);
    assert_eq!(found[0].service_id, "inst-02");
    assert_eq!(local.list_instances("user-service").len(), 1);

    // inst-01 was already removed: deregistering still reports it
    let e = local.deregister().unwrap();
    assert!(matches!(e, ServiceEvent::Delete { ref service_id, .. } if service_id == "inst-01"));
    assert!(local.deregister().is_none());

    let cancelled = dir.shutdown();
    assert_eq!(cancelled, vec!["user-service".to_string()]);
    assert!(dir.get_instances("user-service").is_empty());
    assert!(!dir.is_watched("user-service"));
}

#[test]
fn events_of_other_services_are_filtered() {
    let mut local = LocalRegistry::new();
    let up = local.add_instance(http("a", "svc-a", 1));
    assert!(concerns(&up, "svc-a"));
    assert!(!concerns(&up, "svc-b"));
    let del = local.remove_instance("svc-a", "a");
    assert!(concerns(&del, "svc-a"));
    assert!(!concerns(&ServiceEvent::Reset(vec![]), "svc-a"));
    assert!(concerns(&ServiceEvent::Reset(vec![http("x", "svc-a", 1)]), "svc-a"));
}

#[test]
fn store_then_list_reads_back() {
    let mut local = LocalRegistry::new();
    local.add_instance(http("a", "s", 1));
    local.add_instance(http("b", "s", 2));
    local.add_instance(http("a", "s", 3));
    let l = local.list_instances("s");
    assert_eq!(l.len(), 2);
    assert_eq!(l[0].service_id, "a");
    assert_eq!(l[0].http.as_ref().unwrap().port, 3);
    assert_eq!(l[1].service_id, "b");
    assert!(local.list_instances("other").is_empty());
    local.remove_instance("nope", "a");
    assert_eq!(local.list_instances("s").len(), 2);
    local.clear();
    assert!(local.list_instances("s").is_empty());
}

#[test]
fn directory_events_upsert_delete_reset() {
    let mut dir = ServiceDirectory::with_reconcile_interval(5);
    assert_eq!(dir.reconcile_interval_millis(), 5000);
    dir.apply_event("s", ServiceEvent::Upsert(http("a", "s", 1)));
    dir.apply_event("s", ServiceEvent::Upsert(http("b", "s", 2)));
    dir.apply_event("s", ServiceEvent::Upsert(http("a", "s", 9)));
    let l = dir.get_instances("s");
    assert_eq!(l.len(), 2);
    assert_eq!(l[0].http.as_ref().unwrap().port, 9);
    // upsert is idempotent
    dir.apply_event("s", ServiceEvent::Upsert(http("a", "s", 9)));
    assert_eq!(dir.get_instances("s"), l);
    dir.apply_event("s", ServiceEvent::Delete { service_name: "s".to_string(), service_id: "a".to_string() });
    let l = dir.get_instances("s");
    assert_eq!(l.len(), 1);
    assert_eq!(l[0].service_id, "b");
    dir.apply_event("s", ServiceEvent::Reset(vec![http("z", "s", 3)]));
    let l = dir.get_instances("s");
    assert_eq!(l.len(), 1);
    assert_eq!(l[0].service_id, "z");
    // cached only once watched
    assert!(dir.cached_snapshot("s").is_none());
    assert!(dir.begin_watch("s"));
    assert!(!dir.begin_watch("s"));
    assert_eq!(dir.cached_snapshot("s").unwrap().len(), 1);
}

#[test]
fn delete_undoes_a_new_upsert() {
    let mut dir = ServiceDirectory::new();
    dir.apply_event("s", ServiceEvent::Upsert(http("a", "s", 1)));
    let before = dir.get_instances("s");
    dir.apply_event("s", ServiceEvent::Upsert(http("new", "s", 2)));
    dir.apply_event("s", ServiceEvent::Delete { service_name: "s".to_string(), service_id: "new".to_string() });
    assert_eq!(dir.get_instances("s"), before);
}

#[test]
fn watch_loop_backoff_and_reconnect() {
    let mut dir = ServiceDirectory::new();
    let mut w = WatchLoop::new();
    let mut waits = vec![];
    for _ in 0..6 {
        match w.step(&mut dir, "s", WatchInput::ConnectFailed) {
            WatchAction::RetryAfter(secs) => waits.push(secs),
            other => panic!("unexpected {other:?}"),
        }
    }
    assert_eq!(waits, vec![1, 2, 4, 8, 10, 10]);
    assert_eq!(w.step(&mut dir, "s", WatchInput::Connected), WatchAction::Listen);
    assert_eq!(w.backoff_secs(), 1);
    assert_eq!(w.step(&mut dir, "s", WatchInput::Reconciled(vec![http("r", "s", 1)])), WatchAction::Listen);
    assert_eq!(dir.get_instances("s").len(), 1);
    assert_eq!(w.step(&mut dir, "s", WatchInput::ReconcileFailed), WatchAction::Listen);
    assert_eq!(w.step(&mut dir, "s", WatchInput::StreamEnded), WatchAction::Connect);
    assert_eq!(w.step(&mut dir, "s", WatchInput::Cancelled), WatchAction::Stop);
}
