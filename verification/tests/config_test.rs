use pecs_registry::builder::{kind_from_lowercase, nacos_config_from, provider_kind, ProviderKind};
use pecs_registry::config::RegistryConfig;

#[test]
fn default_config_values() {
    let c = RegistryConfig::default();
    assert!(c.enable);
    assert_eq!(c.kind, "etcd");
    assert_eq!(c.host, "127.0.0.1");
    assert_eq!(c.port, 2379);
    assert_eq!(c.namespace, "pecs");
    assert_eq!(c.group, "dev");
    assert_eq!(c.timeout, 10);
    assert_eq!(c.ttl, 30);
    assert_eq!(c.cache_ttl, 5);
    assert!(c.user.is_none() && c.password.is_none());
    assert!(c.disk_cache_dir.is_none());
    assert!(!c.disk_cache_enabled);
}

#[test]
fn single_host_endpoint() {
    let c = RegistryConfig::default();
    assert_eq!(c.endpoint(), "http://127.0.0.1:2379");
    assert_eq!(c.endpoints(), vec!["http://127.0.0.1:2379".to_string()]);
}

#[test]
fn cluster_endpoints_are_trimmed_and_normalised() {
    let mut c = RegistryConfig::default();
    c.host = " 10.0.0.1:2379 , ,10.0.0.2,https://secure:443,http://plain ,\t".to_string();
    c.port = 2380;
    assert_eq!(
        c.endpoints(),
        vec![
            "http://10.0.0.1:2379".to_string(),
            "http://10.0.0.2:2380".to_string(),
            "https://secure:443".to_string(),
            "http://plain".to_string(),
        ]
    );
}

#[test]
fn readme_cluster_example() {
    let mut c = RegistryConfig::default();
    c.host = "10.0.0.1:2379,10.0.0.2:2379".to_string();
    assert_eq!(
        c.endpoints(),
        vec!["http://10.0.0.1:2379".to_string(), "http://10.0.0.2:2379".to_string()]
    );
}

#[test]
fn provider_kind_ignores_case() {
    let mut c = RegistryConfig::default();
    assert_eq!(provider_kind(&c), ProviderKind::Etcd);
    c.kind = "NACOS".to_string();
    assert_eq!(provider_kind(&c), ProviderKind::Nacos);
    c.kind = "Local".to_string();
    assert_eq!(provider_kind(&c), ProviderKind::Local);
    c.kind = "consul".to_string();
    assert_eq!(provider_kind(&c), ProviderKind::Local);
    assert_eq!(kind_from_lowercase("etcd"), ProviderKind::Etcd);
    assert_eq!(kind_from_lowercase("ETCD"), ProviderKind::Local);
}

#[test]
fn nacos_settings_from_config() {
    let mut c = RegistryConfig::default();
    c.kind = "nacos".to_string();
    c.host = "10.1.1.1".to_string();
    c.port = 8848;
    c.user = Some("u".to_string());
    let n = nacos_config_from(&c);
    assert_eq!(n.server_addr, "10.1.1.1:8848");
    assert_eq!(n.app_name, "pecs-app");
    assert_eq!(n.namespace, "pecs");
    assert!(n.enable_naming);
    assert_eq!(n.username, Some("u".to_string()));
    assert_eq!(n.password, None);
    assert_eq!(n.registration.service_name, "pecs-app");
    assert_eq!(n.registration.group, "dev");
    assert_eq!(n.registration.cluster_name, "DEFAULT");
    assert_eq!(n.registration.weight, 100);
    assert!(n.registration.ephemeral);
    assert_eq!(n.registration.metadata.len(), 0);
}
