//! How a registry is assembled from its configuration.
use vstd::prelude::*;
use crate::config::RegistryConfig;
use crate::provider::nacos::{NacosConfig, NacosRegistrationConfig, default_app_name, default_cluster};
use crate::strmap::StrMap;
use crate::text::{push_char, push_decimal, str_eq, decimal};

verus! {

broadcast use vstd::string::group_string_axioms;

/// Which provider backs the registry.
#[derive(Debug, Clone, Copy, PartialEq, Eq)]
pub enum ProviderKind {
    Etcd,
    Nacos,
    Local,
}

/// The Unicode lowercase form of a string, as `str::to_lowercase` computes it.
pub uninterp spec fn unicode_lowercase(s: Seq<char>) -> Seq<char>;

/// `str::to_lowercase`. The contract claims only that the result is the
/// Unicode lowercase form of the argument, a function of it alone.
#[verifier::external_body]
fn to_lowercase(s: &str) -> (r: String)
    ensures
        r@ == unicode_lowercase(s@),
{
    s.to_lowercase()
}

/// The provider a lowercased kind names: `etcd`, `nacos`, anything else local.
pub open spec fn kind_of_lowercase(lower: Seq<char>) -> ProviderKind {
    if lower == "etcd"@ {
        ProviderKind::Etcd
    } else if lower == "nacos"@ {
        ProviderKind::Nacos
    } else {
        ProviderKind::Local
    }
}

/// The provider that an already lowercased kind names.
pub fn kind_from_lowercase(lower: &str) -> (k: ProviderKind)
    ensures
        k == kind_of_lowercase(lower@),
{
    if str_eq(lower, "etcd") {
        ProviderKind::Etcd
    } else if str_eq(lower, "nacos") {
        ProviderKind::Nacos
    } else {
        ProviderKind::Local
    }
}

/// The provider the configuration asks for, by its kind in any case.
pub fn provider_kind(config: &RegistryConfig) -> (k: ProviderKind)
    ensures
        k == kind_of_lowercase(unicode_lowercase(config.kind@)),
{
    let lower = to_lowercase(config.kind.as_str());
    kind_from_lowercase(lower.as_str())
}

/// The default interval between full reconciliations of watched services, in seconds.
pub fn default_reconcile_interval_secs() -> (r: u64)
    ensures
        r == 60,
{
    60
}

/// The Nacos settings derived from a registry configuration: server at
/// `host:port`, application and registered service `pecs-app`, the
/// configuration's namespace, group and credentials, naming on when the
/// configuration is enabled, cluster `DEFAULT`, weight 1.0, ephemeral.
pub fn nacos_config_from(config: &RegistryConfig) -> (r: NacosConfig)
    ensures
        r.server_addr@ == config.host@ + seq![':'] + decimal(config.port as nat),
        r.app_name@ == "pecs-app"@,
        r.namespace@ == config.namespace@,
        r.enable_naming == config.enable,
        crate::instance::opt_string_view(r.username) == crate::instance::opt_string_view(config.user),
        crate::instance::opt_string_view(r.password) == crate::instance::opt_string_view(config.password),
        r.registration.service_name@ == "pecs-app"@,
        r.registration.group@ == config.group@,
        r.registration.cluster_name@ == "DEFAULT"@,
        r.registration.weight == 100,
        r.registration.ephemeral,
        r.registration.metadata@ == Seq::<(Seq<char>, Seq<char>)>::empty(),
{
    let mut addr = config.host.clone();
    push_char(&mut addr, ':');
    push_decimal(&mut addr, config.port as u64);
    NacosConfig {
        server_addr: addr,
        app_name: default_app_name(),
        namespace: config.namespace.clone(),
        enable_naming: config.enable,
        username: crate::instance::clone_opt_string(&config.user),
        password: crate::instance::clone_opt_string(&config.password),
        registration: NacosRegistrationConfig {
            service_name: default_app_name(),
            group: config.group.clone(),
            cluster_name: default_cluster(),
            weight: 100,
            ephemeral: true,
            metadata: StrMap::new(),
        },
    }
}

} // verus!
