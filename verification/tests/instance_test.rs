use pecs_registry::error::RegistryError;
use pecs_registry::instance::{eq_ignore_ascii_case, Endpoint, ServiceInstance};

#[test]
fn endpoint_urls() {
    let e = Endpoint::new("10.0.0.1", 8080);
    assert_eq!(e.to_url("http"), "http://10.0.0.1:8080");
    assert_eq!(e.to_string(), "10.0.0.1:8080");
    let s = e.with_scheme("https");
    assert_eq!(s.scheme.as_deref(), Some("https"));
    assert_eq!(s.to_url("http"), "https://10.0.0.1:8080");
    assert_eq!(Endpoint::new("h", 0).to_url("grpc"), "grpc://h:0");
}

#[test]
fn new_instance_lists_protocol_endpoints() {
    let inst = ServiceInstance::new(
        "inst-01",
        "pecs",
        "dev",
        "pecs-bff",
        Some(Endpoint::new("127.0.0.1", 8001)),
        Some(Endpoint::new("127.0.0.1", 9001)),
    );
    assert_eq!(inst.service_id, "inst-01");
    assert_eq!(inst.name, "pecs-bff");
    assert_eq!(inst.service_name(), "pecs-bff");
    assert_eq!(inst.endpoints.len(), 2);
    assert_eq!(inst.endpoints.get("http").unwrap().port, 8001);
    assert_eq!(inst.endpoints.get("grpc").unwrap().port, 9001);
    assert_eq!(inst.weight, 100);
    assert!(inst.enabled && inst.healthy);
    assert_eq!(inst.metadata.len(), 0);
    let grpc_only = ServiceInstance::new_grpc("g", "n", "g", "s", Endpoint::new("h", 1));
    assert!(grpc_only.http.is_none());
    assert_eq!(grpc_only.endpoints.len(), 1);
    assert!(grpc_only.endpoints.get("http").is_none());
}

#[test]
fn simple_instance_id() {
    let inst = ServiceInstance::simple("user-service", "127.0.0.1", 8080);
    assert_eq!(inst.service_id, "user-service-127.0.0.1-8080");
    assert_eq!(inst.namespace, "default");
    assert_eq!(inst.group, "default");
    assert_eq!(inst.http.as_ref().unwrap().port, 8080);
    assert!(inst.grpc.is_none());
}

#[test]
fn metadata_and_weight() {
    let inst = ServiceInstance::simple("s", "h", 1)
        .with_metadata("env", "prod")
        .with_metadata("env", "test")
        .with_metadata("zone", "a")
        .with_weight(250);
    assert_eq!(inst.metadata.get("env").unwrap(), "test");
    assert_eq!(inst.metadata.get("zone").unwrap(), "a");
    assert_eq!(inst.metadata.len(), 2);
    assert_eq!(inst.metadata.key_at(0), "env");
    assert_eq!(inst.weight, 250);
}

#[test]
fn with_endpoint_sets_protocol_fields_ignoring_case() {
    let inst = ServiceInstance::simple("s", "h", 1)
        .with_endpoint("GRPC", Endpoint::new("g", 9))
        .with_endpoint("metrics", Endpoint::new("m", 7))
        .with_endpoint("Http", Endpoint::new("w", 8));
    assert_eq!(inst.grpc.as_ref().unwrap().address, "g");
    assert_eq!(inst.http.as_ref().unwrap().address, "w");
    assert_eq!(inst.endpoints.get("metrics").unwrap().port, 7);
    assert_eq!(inst.endpoints.get("GRPC").unwrap().port, 9);
    assert!(eq_ignore_ascii_case("HtTp", "http"));
    assert!(!eq_ignore_ascii_case("https", "http"));
    assert!(!eq_ignore_ascii_case("É", "é"));
}

#[test]
fn clone_keeps_everything() {
    let inst = ServiceInstance::simple("s", "h", 1).with_metadata("k", "v").with_weight(3);
    let c = inst.clone();
    assert_eq!(c, inst);
}

#[test]
fn error_constructors_and_messages() {
    assert_eq!(RegistryError::driver("boom"), RegistryError::Driver("boom".to_string()));
    assert_eq!(RegistryError::connection("x"), RegistryError::Connection("x".to_string()));
    assert_eq!(RegistryError::timeout("t"), RegistryError::Timeout("t".to_string()));
    assert_eq!(RegistryError::config("c"), RegistryError::Config("c".to_string()));
    assert_eq!(RegistryError::other("o"), RegistryError::Other("o".to_string()));
    assert_eq!(RegistryError::Timeout("5s".to_string()).to_string(), "操作超时: 5s");
    assert_eq!(
        RegistryError::ServiceNotFound("svc".to_string()).to_string(),
        "未找到微服务 'svc' 的可用实例"
    );
}
