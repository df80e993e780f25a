//! What the Nacos provider computes: its settings, server URL, request forms
//! and the instances it reads back.
use vstd::prelude::*;
use crate::instance::{Endpoint, ServiceInstance, ServiceInstanceView, EndpointView, host_port};
use crate::strmap::StrMap;
use crate::text::{
    TrimSet, chars_of, concat_str, decimal, digit_char, push_char, push_decimal, starts_with,
    starts_with_spec, trim_spec, trim_str,
};
use crate::config::{http_prefix, https_prefix};

verus! {

broadcast use vstd::string::group_string_axioms;

/// Nacos server and connection settings.
#[derive(Debug, Clone)]
pub struct NacosConfig {
    /// Server address, `"127.0.0.1:8848"` or with an `http(s)://` scheme.
    pub server_addr: String,
    pub app_name: String,
    /// Namespace (tenant) identifier.
    pub namespace: String,
    /// Whether registration and discovery are on.
    pub enable_naming: bool,
    pub username: Option<String>,
    pub password: Option<String>,
    pub registration: NacosRegistrationConfig,
}

/// How this process registers with Nacos.
#[derive(Debug, Clone)]
pub struct NacosRegistrationConfig {
    pub service_name: String,
    pub group: String,
    pub cluster_name: String,
    /// Weight in hundredths (100 stands for 1.0).
    pub weight: u32,
    pub ephemeral: bool,
    pub metadata: StrMap<String>,
}

pub fn default_app_name() -> (r: String)
    ensures
        r@ == "pecs-app"@,
{
    "pecs-app".to_string()
}

pub fn default_namespace() -> (r: String)
    ensures
        r@ == "public"@,
{
    "public".to_string()
}

pub fn default_true() -> (r: bool)
    ensures
        r,
{
    true
}

pub fn default_group() -> (r: String)
    ensures
        r@ == "DEFAULT_GROUP"@,
{
    "DEFAULT_GROUP".to_string()
}

pub fn default_cluster() -> (r: String)
    ensures
        r@ == "DEFAULT"@,
{
    "DEFAULT".to_string()
}

pub fn default_weight() -> (r: u32)
    ensures
        r == 100,
{
    100
}

impl Default for NacosRegistrationConfig {
    fn default() -> (r: Self)
        ensures
            r.service_name@ == "pecs-app"@,
            r.group@ == "DEFAULT_GROUP"@,
            r.cluster_name@ == "DEFAULT"@,
            r.weight == 100,
            r.ephemeral,
            r.metadata@ == Seq::<(Seq<char>, Seq<char>)>::empty(),
    {
        NacosRegistrationConfig {
            service_name: default_app_name(),
            group: default_group(),
            cluster_name: default_cluster(),
            weight: default_weight(),
            ephemeral: true,
            metadata: StrMap::new(),
        }
    }
}

/// The URL of the server: its trimmed address, given `http://` unless it has
/// an `http(s)://` scheme.
pub open spec fn server_url_spec(addr: Seq<char>) -> Seq<char> {
    let a = trim_spec(addr, TrimSet::WhiteSpace);
    if starts_with_spec(a, http_prefix()) || starts_with_spec(a, https_prefix()) {
        a
    } else {
        http_prefix() + a
    }
}

/// A weight in hundredths as `f64` displays it: `1`, `2.5`, `1.25`.
pub open spec fn weight_text(w: u32) -> Seq<char> {
    let whole = decimal((w / 100) as nat);
    let frac = w % 100;
    if frac == 0 {
        whole
    } else if frac % 10 == 0 {
        whole + seq!['.', digit_char((frac / 10) as nat)]
    } else {
        whole + seq!['.', digit_char((frac / 10) as nat), digit_char((frac % 10) as nat)]
    }
}

/// Renders a weight in hundredths as `f64` displays it.
pub fn weight_string(w: u32) -> (r: String)
    ensures
        r@ == weight_text(w),
{
    let mut s = String::new();
    push_decimal(&mut s, (w / 100) as u64);
    let frac = w % 100;
    if frac != 0 {
        push_char(&mut s, '.');
        push_decimal(&mut s, (frac / 10) as u64);
        if frac % 10 != 0 {
            push_decimal(&mut s, (frac % 10) as u64);
        }
    }
    assert(s@ =~= weight_text(w));
    s
}

/// One instance as Nacos lists it.
#[derive(Debug, Clone)]
pub struct NacosHost {
    pub ip: String,
    pub port: u16,
    /// Weight in hundredths.
    pub weight: u32,
    pub healthy: bool,
    pub enabled: bool,
    pub metadata: StrMap<String>,
}

/// The identifier given to a listed instance: `{service}-{ip}:{port}`.
pub open spec fn host_id(service_name: Seq<char>, ip: Seq<char>, port: u16) -> Seq<char> {
    service_name + seq!['-'] + host_port(ip, port)
}

/// The address registered for an instance: its HTTP endpoint, else its gRPC
/// endpoint, else `127.0.0.1:8080`.
pub open spec fn register_target_spec(inst: ServiceInstanceView) -> (Seq<char>, u16) {
    match inst.http {
        Some(e) => (e.address, e.port),
        None => match inst.grpc {
            Some(e) => (e.address, e.port),
            None => ("127.0.0.1"@, 8080),
        },
    }
}

/// A request form: its field names and values.
pub open spec fn form_view(f: Seq<(String, String)>) -> Seq<(Seq<char>, Seq<char>)> {
    f.map_values(|p: (String, String)| (p.0@, p.1@))
}

fn field(name: &str, value: &str) -> (r: (String, String))
    ensures
        r.0@ == name@,
        r.1@ == value@,
{
    (name.to_string(), value.to_string())
}

/// The Nacos provider's settings and the instance it registered.
#[derive(Debug)]
pub struct NacosRegistry {
    config: NacosConfig,
    registered_instance: Option<ServiceInstance>,
}

impl NacosRegistry {
    pub closed spec fn config_spec(&self) -> NacosConfig {
        self.config
    }

    pub closed spec fn registered_spec(&self) -> Option<ServiceInstanceView> {
        match self.registered_instance {
            Some(i) => Some(i@),
            None => None,
        }
    }

    pub fn new(config: NacosConfig) -> (r: Self)
        ensures
            r.config_spec() == config,
            r.registered_spec() is None,
    {
        NacosRegistry { config, registered_instance: None }
    }

    pub fn config(&self) -> (r: &NacosConfig)
        ensures
            *r == self.config_spec(),
    {
        &self.config
    }

    /// The server's base URL.
    pub fn server_url(&self) -> (r: String)
        ensures
            r@ == server_url_spec(self.config_spec().server_addr@),
    {
        proof {
            reveal_strlit("http://");
            reveal_strlit("https://");
        }
        assert("http://"@ =~= http_prefix());
        assert("https://"@ =~= https_prefix());
        let a = trim_str(self.config.server_addr.as_str(), TrimSet::WhiteSpace);
        let cs = chars_of(a.as_str());
        if starts_with(cs.as_slice(), "http://") || starts_with(cs.as_slice(), "https://") {
            a
        } else {
            concat_str("http://", a.as_str())
        }
    }

    /// Registration and discovery are on: naming enabled and a non-blank address.
    pub fn naming_active(&self) -> (r: bool)
        ensures
            r == (self.config_spec().enable_naming && trim_spec(self.config_spec().server_addr@, TrimSet::WhiteSpace).len() > 0),
    {
        if !self.config.enable_naming {
            return false;
        }
        let t = trim_str(self.config.server_addr.as_str(), TrimSet::WhiteSpace);
        t.as_str().unicode_len() > 0
    }

    /// Remembers the registered instance (for deregistration).
    pub fn remember(&mut self, instance: &ServiceInstance)
        ensures
            final(self).registered_spec() == Some(instance@),
            final(self).config_spec() == old(self).config_spec(),
    {
        self.registered_instance = Some(instance.clone());
    }

    /// Takes the registered instance back, leaving none.
    pub fn take_registered(&mut self) -> (r: Option<ServiceInstance>)
        ensures
            match r {
                Some(i) => old(self).registered_spec() == Some(i@),
                None => old(self).registered_spec() is None,
            },
            final(self).registered_spec() is None,
            final(self).config_spec() == old(self).config_spec(),
    {
        self.registered_instance.take()
    }

    /// The endpoint the instance is registered at.
    pub fn register_target(instance: &ServiceInstance) -> (r: (String, u16))
        ensures
            (r.0@, r.1) == register_target_spec(instance@),
    {
        match &instance.http {
            Some(e) => (e.address.clone(), e.port),
            None => match &instance.grpc {
                Some(e) => (e.address.clone(), e.port),
                None => ("127.0.0.1".to_string(), 8080),
            },
        }
    }

    /// The instance endpoint URL: `{base}/nacos/v1/ns/instance`.
    pub fn instance_url(&self) -> (r: String)
        ensures
            r@ == server_url_spec(self.config_spec().server_addr@) + "/nacos/v1/ns/instance"@,
    {
        let base = self.server_url();
        concat_str(base.as_str(), "/nacos/v1/ns/instance")
    }

    /// The listing URL: `{base}/nacos/v1/ns/instance/list`.
    pub fn list_url(&self) -> (r: String)
        ensures
            r@ == server_url_spec(self.config_spec().server_addr@) + "/nacos/v1/ns/instance/list"@,
    {
        let base = self.server_url();
        concat_str(base.as_str(), "/nacos/v1/ns/instance/list")
    }

    /// The form that registers `instance`.
    pub fn register_form(&self, instance: &ServiceInstance) -> (r: Vec<(String, String)>)
        ensures
            form_view(r@) == seq![
                ("serviceName"@, instance@.name),
                ("ip"@, register_target_spec(instance@).0),
                ("groupName"@, self.config_spec().registration.group@),
                ("namespaceId"@, self.config_spec().namespace@),
                ("clusterName"@, self.config_spec().registration.cluster_name@),
                ("port"@, decimal(register_target_spec(instance@).1 as nat)),
                ("weight"@, weight_text(instance@.weight)),
            ],
    {
        let (ip, port) = NacosRegistry::register_target(instance);
        let port_text = crate::text::decimal_string(port as u64);
        let weight_str = weight_string(instance.weight);
        let mut f: Vec<(String, String)> = Vec::new();
        f.push(field("serviceName", instance.name.as_str()));
        f.push(field("ip", ip.as_str()));
        f.push(field("groupName", self.config.registration.group.as_str()));
        f.push(field("namespaceId", self.config.namespace.as_str()));
        f.push(field("clusterName", self.config.registration.cluster_name.as_str()));
        f.push(field("port", port_text.as_str()));
        f.push(field("weight", weight_str.as_str()));
        assert(form_view(f@) =~= seq![
            ("serviceName"@, instance@.name),
            ("ip"@, register_target_spec(instance@).0),
            ("groupName"@, self.config.registration.group@),
            ("namespaceId"@, self.config.namespace@),
            ("clusterName"@, self.config.registration.cluster_name@),
            ("port"@, decimal(register_target_spec(instance@).1 as nat)),
            ("weight"@, weight_text(instance@.weight)),
        ]);
        f
    }

    /// The form that deregisters `instance`.
    pub fn deregister_form(&self, instance: &ServiceInstance) -> (r: Vec<(String, String)>)
        ensures
            form_view(r@) == seq![
                ("serviceName"@, instance@.name),
                ("ip"@, register_target_spec(instance@).0),
                ("port"@, decimal(register_target_spec(instance@).1 as nat)),
                ("groupName"@, self.config_spec().registration.group@),
                ("namespaceId"@, self.config_spec().namespace@),
            ],
    {
        let (ip, port) = NacosRegistry::register_target(instance);
        let port_text = crate::text::decimal_string(port as u64);
        let mut f: Vec<(String, String)> = Vec::new();
        f.push(field("serviceName", instance.name.as_str()));
        f.push(field("ip", ip.as_str()));
        f.push(field("port", port_text.as_str()));
        f.push(field("groupName", self.config.registration.group.as_str()));
        f.push(field("namespaceId", self.config.namespace.as_str()));
        assert(form_view(f@) =~= seq![
            ("serviceName"@, instance@.name),
            ("ip"@, register_target_spec(instance@).0),
            ("port"@, decimal(register_target_spec(instance@).1 as nat)),
            ("groupName"@, self.config.registration.group@),
            ("namespaceId"@, self.config.namespace@),
        ]);
        f
    }

    /// The query that lists the healthy instances of `service_name`.
    pub fn list_query(&self, service_name: &str) -> (r: Vec<(String, String)>)
        ensures
            form_view(r@) == seq![
                ("serviceName"@, service_name@),
                ("groupName"@, self.config_spec().registration.group@),
                ("namespaceId"@, self.config_spec().namespace@),
                ("healthyOnly"@, "true"@),
            ],
    {
        let mut f: Vec<(String, String)> = Vec::new();
        f.push(field("serviceName", service_name));
        f.push(field("groupName", self.config.registration.group.as_str()));
        f.push(field("namespaceId", self.config.namespace.as_str()));
        f.push(field("healthyOnly", "true"));
        assert(form_view(f@) =~= seq![
            ("serviceName"@, service_name@),
            ("groupName"@, self.config.registration.group@),
            ("namespaceId"@, self.config.namespace@),
            ("healthyOnly"@, "true"@),
        ]);
        f
    }

    /// The instance that a listed host stands for: an HTTP instance of
    /// `service_name` in this namespace and group, identified as
    /// `{service}-{ip}:{port}`, with the host's weight, state and metadata.
    pub fn instance_from_host(&self, service_name: &str, host: NacosHost) -> (r: ServiceInstance)
        ensures
            r@ == (ServiceInstanceView {
                weight: host.weight,
                healthy: host.healthy,
                enabled: host.enabled,
                metadata: host.metadata@,
                ..ServiceInstance::new_spec(
                    host_id(service_name@, host.ip@, host.port),
                    self.config_spec().namespace@,
                    self.config_spec().registration.group@,
                    service_name@,
                    Some(EndpointView { address: host.ip@, port: host.port, scheme: None }),
                    None,
                )
            }),
    {
        let mut id = service_name.to_string();
        push_char(&mut id, '-');
        let ep = Endpoint::new(host.ip.as_str(), host.port);
        let hp = ep.to_string();
        let id = concat_str(id.as_str(), hp.as_str());
        assert(id@ =~= host_id(service_name@, host.ip@, host.port));
        let inst = ServiceInstance::new_http(
            id.as_str(),
            self.config.namespace.as_str(),
            self.config.registration.group.as_str(),
            service_name,
            ep,
        );
        let mut inst = inst.with_weight(host.weight);
        inst.healthy = host.healthy;
        inst.enabled = host.enabled;
        inst.metadata = host.metadata;
        inst
    }
}


/// An instance is registered (and deregistered) at its HTTP endpoint when it
/// has one, whatever its gRPC endpoint; at its gRPC endpoint only when it has
/// no HTTP endpoint; and at `127.0.0.1:8080` when it has neither.
pub proof fn law_nacos_registers_http_endpoint_first(inst: ServiceInstanceView, other_grpc: Option<EndpointView>)
    ensures
        inst.http matches Some(e) ==> register_target_spec(inst) == (e.address, e.port),
        inst.http is Some ==> register_target_spec(ServiceInstanceView { grpc: other_grpc, ..inst })
            == register_target_spec(inst),
        inst.http is None ==> (inst.grpc matches Some(g) ==> register_target_spec(inst) == (g.address, g.port)),
        inst.http is None && inst.grpc is None ==> register_target_spec(inst) == ("127.0.0.1"@, 8080u16),
{
}

} // verus!
