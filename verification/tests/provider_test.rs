use pecs_registry::config::RegistryConfig;
use pecs_registry::discover::{discover_changes, grpc_changes, initial_changes, DiscoverChange};
use pecs_registry::instance::{Endpoint, ServiceInstance};
use pecs_registry::provider::etcd::{delete_event, service_id_from_key, EtcdRegistry, LeaseAction, LeaseInput, LeaseLoop, LeasePhase};
use pecs_registry::provider::nacos::{weight_string, NacosConfig, NacosHost, NacosRegistrationConfig, NacosRegistry};
use pecs_registry::strmap::StrMap;
use pecs_registry::traits::ServiceEvent;

fn etcd_with(ns: &str, group: &str) -> EtcdRegistry {
    let mut c = RegistryConfig::default();
    c.namespace = ns.to_string();
    c.group = group.to_string();
    EtcdRegistry::new(c)
}

#[test]
fn etcd_keys_trim_slashes() {
    let e = etcd_with("/my-cluster/", "prod");
    assert_eq!(e.make_instance_key("/order-service", "node-01/"), "/my-cluster/prod/order-service/node-01");
    assert_eq!(e.make_service_prefix("order-service"), "/my-cluster/prod/order-service/");
    assert_eq!(etcd_with("", "").make_service_prefix("s"), "///s/");
}

#[test]
fn etcd_settings() {
    let mut c = RegistryConfig::default();
    c.timeout = 0;
    c.ttl = 0;
    let e = EtcdRegistry::new(c.clone());
    assert_eq!(e.op_timeout_secs(), 1);
    assert_eq!(e.lease_ttl(), 10);
    assert_eq!(e.heartbeat_interval_secs(), 3);
    c.ttl = 2;
    c.timeout = 7;
    let e = EtcdRegistry::new(c.clone());
    assert_eq!(e.op_timeout_secs(), 7);
    assert_eq!(e.lease_ttl(), 2);
    assert_eq!(e.heartbeat_interval_secs(), 1);
    assert!(e.is_active());
    c.host = "  ".to_string();
    assert!(!EtcdRegistry::new(c.clone()).is_active());
    c.host = "h".to_string();
    c.enable = false;
    assert!(!EtcdRegistry::new(c).is_active());
}

#[test]
fn etcd_delete_events_name_the_last_segment() {
    assert_eq!(service_id_from_key("/pecs/dev/svc/node-9"), "node-9");
    assert_eq!(service_id_from_key("plain"), "plain");
    assert_eq!(service_id_from_key("/trailing/"), "");
    assert_eq!(
        delete_event("svc", "/pecs/dev/svc/id-1"),
        ServiceEvent::Delete { service_name: "svc".to_string(), service_id: "id-1".to_string() }
    );
}

#[test]
fn etcd_lease_loop() {
    let mut l = LeaseLoop::new(10);
    assert_eq!(l.step(LeaseInput::ConnectFailed), LeaseAction::RetryAfter(3));
    assert_eq!(l.step(LeaseInput::Connected), LeaseAction::Register);
    assert_eq!(l.step(LeaseInput::Registered), LeaseAction::OpenKeepAlive { first: true });
    assert_eq!(l.step(LeaseInput::KeepAliveOpened), LeaseAction::Heartbeat(10));
    assert_eq!(l.step(LeaseInput::Renewed), LeaseAction::Heartbeat(10));
    assert_eq!(l.step(LeaseInput::Lost), LeaseAction::RetryAfter(2));
    assert_eq!(l.phase(), LeasePhase::Connecting);
    assert_eq!(l.step(LeaseInput::Connected), LeaseAction::Register);
    assert_eq!(l.step(LeaseInput::Registered), LeaseAction::OpenKeepAlive { first: false });
    assert_eq!(l.step(LeaseInput::KeepAliveFailed), LeaseAction::RetryAfter(2));
    assert_eq!(l.step(LeaseInput::RegisterFailed), LeaseAction::RetryAfter(3));
    assert_eq!(l.step(LeaseInput::Cancelled), LeaseAction::Stop);
    assert_eq!(l.phase(), LeasePhase::Stopped);
}

fn nacos(addr: &str) -> NacosRegistry {
    NacosRegistry::new(NacosConfig {
        server_addr: addr.to_string(),
        app_name: "app".to_string(),
        namespace: "public".to_string(),
        enable_naming: true,
        username: None,
        password: None,
        registration: NacosRegistrationConfig::default(),
    })
}

#[test]
fn nacos_urls_and_forms() {
    assert_eq!(nacos(" 127.0.0.1:8848 ").server_url(), "http://127.0.0.1:8848");
    assert_eq!(nacos("https://n:8848").server_url(), "https://n:8848");
    let n = nacos("127.0.0.1:8848");
    assert!(n.naming_active());
    assert!(!nacos("   ").naming_active());
    assert_eq!(n.instance_url(), "http://127.0.0.1:8848/nacos/v1/ns/instance");
    assert_eq!(n.list_url(), "http://127.0.0.1:8848/nacos/v1/ns/instance/list");
    let inst = ServiceInstance::new_grpc("i", "ns", "g", "svc", Endpoint::new("10.0.0.9", 9000)).with_weight(250);
    let form = n.register_form(&inst);
    let pairs: Vec<(&str, &str)> = form.iter().map(|(a, b)| (a.as_str(), b.as_str())).collect();
    assert_eq!(
        pairs,
        vec![
            ("serviceName", "svc"),
            ("ip", "10.0.0.9"),
            ("groupName", "DEFAULT_GROUP"),
            ("namespaceId", "public"),
            ("clusterName", "DEFAULT"),
            ("port", "9000"),
            ("weight", "2.5"),
        ]
    );
    let bare = ServiceInstance::new("i", "ns", "g", "svc", None, None);
    let form = n.deregister_form(&bare);
    assert_eq!(form[1].1, "127.0.0.1");
    assert_eq!(form[2].1, "8080");
    let q = n.list_query("svc");
    assert_eq!(q[3], ("healthyOnly".to_string(), "true".to_string()));
}

#[test]
fn nacos_weights_print_like_floats() {
    assert_eq!(weight_string(100), "1");
    assert_eq!(weight_string(250), "2.5");
    assert_eq!(weight_string(125), "1.25");
    assert_eq!(weight_string(105), "1.05");
    assert_eq!(weight_string(0), "0");
}

#[test]
fn nacos_listed_hosts_become_instances() {
    let n = nacos("h:1");
    let mut md = StrMap::new();
    md.insert("zone".to_string(), "a".to_string());
    let inst = n.instance_from_host(
        "svc",
        NacosHost { ip: "10.0.0.1".to_string(), port: 8080, weight: 150, healthy: false, enabled: true, metadata: md },
    );
    assert_eq!(inst.service_id, "svc-10.0.0.1:8080");
    assert_eq!(inst.namespace, "public");
    assert_eq!(inst.group, "DEFAULT_GROUP");
    assert_eq!(inst.weight, 150);
    assert!(!inst.healthy && inst.enabled);
    assert_eq!(inst.metadata.get("zone").unwrap(), "a");
    assert_eq!(inst.http.as_ref().unwrap().port, 8080);
}

#[test]
fn nacos_remembers_registration() {
    let mut n = nacos("h:1");
    assert!(n.take_registered().is_none());
    let inst = ServiceInstance::simple("s", "h", 1);
    n.remember(&inst);
    assert_eq!(n.take_registered().unwrap().service_id, inst.service_id);
    assert!(n.take_registered().is_none());
}

fn simple(port: u16) -> ServiceInstance {
    ServiceInstance::simple("user-svc", "127.0.0.1", port)
}

#[test]
fn discover_changes_report_inserts_and_removes() {
    let initial = vec![simple(9001), simple(9002)];
    let start = initial_changes(&initial);
    assert_eq!(start.len(), 2);
    let mut known: Vec<String> = initial.iter().map(|i| i.service_id.clone()).collect();

    let grown = vec![simple(9001), simple(9002), simple(9003)];
    let (changes, next) = discover_changes(&known, &grown);
    assert_eq!(changes.len(), 1);
    assert!(matches!(&changes[0], DiscoverChange::Insert(id, _) if id == "user-svc-127.0.0.1-9003"));
    known = next;

    let shrunk = vec![simple(9002), simple(9003)];
    let (changes, next) = discover_changes(&known, &shrunk);
    assert_eq!(changes.len(), 1);
    assert!(matches!(&changes[0], DiscoverChange::Remove(id) if id == "user-svc-127.0.0.1-9001"));
    assert_eq!(next.len(), 2);
}

#[test]
fn grpc_changes_only_track_grpc_instances() {
    let a = ServiceInstance::new_grpc("grpc-node-01", "default", "default", "order-svc", Endpoint::new("127.0.0.1", 9011));
    let b = ServiceInstance::new_grpc("grpc-node-02", "default", "default", "order-svc", Endpoint::new("127.0.0.1", 9012));
    let h = ServiceInstance::simple("order-svc", "127.0.0.1", 80);
    let (ins, rem, known) = grpc_changes(&vec![], &[a.clone(), h.clone()]);
    assert_eq!(ins, vec![("grpc-node-01".to_string(), "http://127.0.0.1:9011".to_string())]);
    assert!(rem.is_empty());
    assert_eq!(known, vec!["grpc-node-01".to_string()]);
    let (ins, rem, known) = grpc_changes(&known, &[b.clone(), h]);
    assert_eq!(ins, vec![("grpc-node-02".to_string(), "http://127.0.0.1:9012".to_string())]);
    assert_eq!(rem, vec!["grpc-node-01".to_string()]);
    assert_eq!(known, vec!["grpc-node-02".to_string()]);
}

#[test]
fn etcd_credentials_need_a_user_and_a_password() {
    let mut c = RegistryConfig::default();
    assert_eq!(EtcdRegistry::new(c.clone()).credentials(), None);
    c.user = Some("root".to_string());
    assert_eq!(EtcdRegistry::new(c.clone()).credentials(), None);
    c.password = Some("pw".to_string());
    assert_eq!(
        EtcdRegistry::new(c.clone()).credentials(),
        Some(("root".to_string(), "pw".to_string()))
    );
    c.user = Some(String::new());
    assert_eq!(EtcdRegistry::new(c).credentials(), None);
}
