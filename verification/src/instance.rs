//! Service endpoints and service instances.
use vstd::prelude::*;
use crate::strmap::{StrMap, upsert, has_key, key_pos};
use crate::text::{chars_of, concat_str, decimal, push_char, push_decimal};

verus! {

broadcast use vstd::string::group_string_axioms;

/// A network endpoint: host, port and an optional scheme.
#[derive(Debug, PartialEq, Eq)]
pub struct Endpoint {
    pub address: String,
    pub port: u16,
    pub scheme: Option<String>,
}

/// The mathematical value of an [`Endpoint`].
pub struct EndpointView {
    pub address: Seq<char>,
    pub port: u16,
    pub scheme: Option<Seq<char>>,
}

pub open spec fn opt_string_view(o: Option<String>) -> Option<Seq<char>> {
    match o {
        Some(s) => Some(s@),
        None => None,
    }
}

pub open spec fn opt_endpoint_view(o: Option<Endpoint>) -> Option<EndpointView> {
    match o {
        Some(e) => Some(e@),
        None => None,
    }
}

impl View for Endpoint {
    type V = EndpointView;

    open spec fn view(&self) -> EndpointView {
        EndpointView { address: self.address@, port: self.port, scheme: opt_string_view(self.scheme) }
    }
}

pub fn clone_opt_string(o: &Option<String>) -> (r: Option<String>)
    ensures
        opt_string_view(r) == opt_string_view(*o),
{
    match o {
        Some(s) => Some(s.clone()),
        None => None,
    }
}

impl Clone for Endpoint {
    fn clone(&self) -> (r: Self)
        ensures
            r@ == self@,
    {
        Endpoint { address: self.address.clone(), port: self.port, scheme: clone_opt_string(&self.scheme) }
    }
}

pub fn clone_opt_endpoint(o: &Option<Endpoint>) -> (r: Option<Endpoint>)
    ensures
        opt_endpoint_view(r) == opt_endpoint_view(*o),
{
    match o {
        Some(e) => Some(e.clone()),
        None => None,
    }
}

/// `host:port`.
pub open spec fn host_port(address: Seq<char>, port: u16) -> Seq<char> {
    address + seq![':'] + decimal(port as nat)
}

/// `scheme://host:port`.
pub open spec fn url_of(scheme: Seq<char>, address: Seq<char>, port: u16) -> Seq<char> {
    scheme + seq![':', '/', '/'] + host_port(address, port)
}

impl Endpoint {
    /// An endpoint with no scheme.
    pub fn new(address: &str, port: u16) -> (r: Self)
        ensures
            r@ == (EndpointView { address: address@, port, scheme: None }),
    {
        Endpoint { address: address.to_string(), port, scheme: None }
    }

    /// The same endpoint with its scheme set.
    pub fn with_scheme(self, scheme: &str) -> (r: Self)
        ensures
            r@ == (EndpointView { scheme: Some(scheme@), ..self@ }),
    {
        let mut e = self;
        e.scheme = Some(scheme.to_string());
        e
    }

    /// The endpoint's URL; its own scheme wins over `default_scheme`.
    pub fn to_url(&self, default_scheme: &str) -> (r: String)
        ensures
            r@ == url_of(
                match self.scheme {
                    Some(s) => s@,
                    None => default_scheme@,
                },
                self.address@,
                self.port,
            ),
    {
        let mut out = match &self.scheme {
            Some(s) => s.clone(),
            None => default_scheme.to_string(),
        };
        let ghost start = out@;
        push_char(&mut out, ':');
        push_char(&mut out, '/');
        push_char(&mut out, '/');
        let tail = self.to_string();
        let with_tail = concat_str(out.as_str(), tail.as_str());
        assert(with_tail@ =~= url_of(start, self.address@, self.port));
        with_tail
    }

    /// `host:port`, as the endpoint is displayed.
    pub fn to_string(&self) -> (r: String)
        ensures
            r@ == host_port(self.address@, self.port),
    {
        let mut out = self.address.clone();
        push_char(&mut out, ':');
        push_decimal(&mut out, self.port as u64);
        assert(out@ =~= host_port(self.address@, self.port));
        out
    }
}

/// A registered instance of a service.
///
/// `weight` is the load-balancing weight in hundredths (100 stands for 1.0).
#[derive(Debug, PartialEq)]
pub struct ServiceInstance {
    pub service_id: String,
    pub namespace: String,
    pub group: String,
    pub name: String,
    pub http: Option<Endpoint>,
    pub grpc: Option<Endpoint>,
    pub endpoints: StrMap<Endpoint>,
    pub metadata: StrMap<String>,
    pub weight: u32,
    pub enabled: bool,
    pub healthy: bool,
}

/// The mathematical value of a [`ServiceInstance`].
pub struct ServiceInstanceView {
    pub service_id: Seq<char>,
    pub namespace: Seq<char>,
    pub group: Seq<char>,
    pub name: Seq<char>,
    pub http: Option<EndpointView>,
    pub grpc: Option<EndpointView>,
    pub endpoints: Seq<(Seq<char>, EndpointView)>,
    pub metadata: Seq<(Seq<char>, Seq<char>)>,
    pub weight: u32,
    pub enabled: bool,
    pub healthy: bool,
}

impl View for ServiceInstance {
    type V = ServiceInstanceView;

    open spec fn view(&self) -> ServiceInstanceView {
        ServiceInstanceView {
            service_id: self.service_id@,
            namespace: self.namespace@,
            group: self.group@,
            name: self.name@,
            http: opt_endpoint_view(self.http),
            grpc: opt_endpoint_view(self.grpc),
            endpoints: self.endpoints@,
            metadata: self.metadata@,
            weight: self.weight,
            enabled: self.enabled,
            healthy: self.healthy,
        }
    }
}

/// The views of a sequence of instances.
pub open spec fn views(s: Seq<ServiceInstance>) -> Seq<ServiceInstanceView> {
    s.map_values(|i: ServiceInstance| i@)
}

/// The default weight: 1.0, in hundredths.
pub open spec fn default_weight_spec() -> u32 {
    100
}

/// The default load-balancing weight (1.0, in hundredths).
pub fn default_weight() -> (r: u32)
    ensures
        r == default_weight_spec(),
{
    100
}

/// New instances are enabled and healthy.
pub fn default_true() -> (r: bool)
    ensures
        r,
{
    true
}

/// The protocol endpoints that a fresh instance lists: `http` then `grpc`, where given.
pub open spec fn initial_endpoints(http: Option<EndpointView>, grpc: Option<EndpointView>) -> Seq<
    (Seq<char>, EndpointView),
> {
    let with_http = match http {
        Some(h) => seq![(seq!['h', 't', 't', 'p'], h)],
        None => Seq::empty(),
    };
    match grpc {
        Some(g) => with_http.push((seq!['g', 'r', 'p', 'c'], g)),
        None => with_http,
    }
}

/// ASCII-lowercase code of a character.
pub open spec fn ascii_lower_code(c: char) -> u32 {
    if 65 <= (c as u32) <= 90 {
        (c as u32 + 32) as u32
    } else {
        c as u32
    }
}

/// Equal up to ASCII case (`str::eq_ignore_ascii_case`).
pub open spec fn eq_ignore_ascii_case_spec(a: Seq<char>, b: Seq<char>) -> bool {
    a.len() == b.len() && forall|i: int| 0 <= i < a.len() ==> ascii_lower_code(#[trigger] a[i])
        == ascii_lower_code(b[i])
}

fn lower_code(c: char) -> (r: u32)
    ensures
        r == ascii_lower_code(c),
{
    let u = c as u32;
    if 65 <= u && u <= 90 {
        u + 32
    } else {
        u
    }
}

/// Compares two strings ignoring ASCII case.
pub fn eq_ignore_ascii_case(a: &str, b: &str) -> (r: bool)
    ensures
        r == eq_ignore_ascii_case_spec(a@, b@),
{
    let ca = chars_of(a);
    let cb = chars_of(b);
    if ca.len() != cb.len() {
        return false;
    }
    let mut i: usize = 0;
    while i < ca.len()
        invariant
            ca@ == a@,
            cb@ == b@,
            ca@.len() == cb@.len(),
            0 <= i <= ca@.len(),
            forall|j: int| 0 <= j < i ==> ascii_lower_code(#[trigger] a@[j]) == ascii_lower_code(
                b@[j],
            ),
        decreases ca@.len() - i,
    {
        if lower_code(ca[i]) != lower_code(cb[i]) {
            return false;
        }
        i = i + 1;
    }
    true
}

impl Clone for ServiceInstance {
    fn clone(&self) -> (r: Self)
        ensures
            r@ == self@,
    {
        ServiceInstance {
            service_id: self.service_id.clone(),
            namespace: self.namespace.clone(),
            group: self.group.clone(),
            name: self.name.clone(),
            http: clone_opt_endpoint(&self.http),
            grpc: clone_opt_endpoint(&self.grpc),
            endpoints: self.endpoints.clone(),
            metadata: self.metadata.clone(),
            weight: self.weight,
            enabled: self.enabled,
            healthy: self.healthy,
        }
    }
}

impl ServiceInstance {
    /// An instance with the given identity and protocol endpoints; both endpoints
    /// are also listed under `http` / `grpc`, weight 1.0, enabled and healthy.
    pub fn new(
        service_id: &str,
        namespace: &str,
        group: &str,
        name: &str,
        http: Option<Endpoint>,
        grpc: Option<Endpoint>,
    ) -> (r: Self)
        ensures
            r@ == (ServiceInstanceView {
                service_id: service_id@,
                namespace: namespace@,
                group: group@,
                name: name@,
                http: opt_endpoint_view(http),
                grpc: opt_endpoint_view(grpc),
                endpoints: initial_endpoints(opt_endpoint_view(http), opt_endpoint_view(grpc)),
                metadata: Seq::empty(),
                weight: default_weight_spec(),
                enabled: true,
                healthy: true,
            }),
    {
        let mut endpoints: StrMap<Endpoint> = StrMap::new();
        proof {
            reveal_strlit("http");
            reveal_strlit("grpc");
        }
        let ghost ih = opt_endpoint_view(http);
        let ghost ig = opt_endpoint_view(grpc);
        let ghost with_http: Seq<(Seq<char>, EndpointView)> = match ih {
            Some(h) => seq![(seq!['h', 't', 't', 'p'], h)],
            None => Seq::empty(),
        };
        assert("http"@ =~= seq!['h', 't', 't', 'p']);
        assert("grpc"@ =~= seq!['g', 'r', 'p', 'c']);
        match &http {
            Some(h) => {
                endpoints.insert("http".to_string(), h.clone());
                assert(!has_key(Seq::<(Seq<char>, EndpointView)>::empty(), "http"@));
            },
            None => {},
        }
        assert(endpoints@ =~= with_http);
        match &grpc {
            Some(g) => {
                endpoints.insert("grpc".to_string(), g.clone());
                proof {
                    if has_key(with_http, "grpc"@) {
                        let p = key_pos(with_http, "grpc"@);
                        assert(with_http[p].0 == seq!['h', 't', 't', 'p']);
                        assert(with_http[p].0[0] == 'h');
                        assert("grpc"@[0] == 'g');
                    }
                }
            },
            None => {},
        }
        assert(endpoints@ =~= initial_endpoints(ih, ig));
        let r = ServiceInstance {
            service_id: service_id.to_string(),
            namespace: namespace.to_string(),
            group: group.to_string(),
            name: name.to_string(),
            http,
            grpc,
            endpoints,
            metadata: StrMap::new(),
            weight: default_weight(),
            enabled: default_true(),
            healthy: default_true(),
        };
        r
    }

    /// An instance with only an HTTP endpoint.
    pub fn new_http(service_id: &str, namespace: &str, group: &str, name: &str, http: Endpoint) -> (r:
        Self)
        ensures
            r@ == ServiceInstance::new_spec(
                service_id@,
                namespace@,
                group@,
                name@,
                Some(http@),
                None,
            ),
    {
        ServiceInstance::new(service_id, namespace, group, name, Some(http), None)
    }

    /// An instance with only a gRPC endpoint.
    pub fn new_grpc(service_id: &str, namespace: &str, group: &str, name: &str, grpc: Endpoint) -> (r:
        Self)
        ensures
            r@ == ServiceInstance::new_spec(
                service_id@,
                namespace@,
                group@,
                name@,
                None,
                Some(grpc@),
            ),
    {
        ServiceInstance::new(service_id, namespace, group, name, None, Some(grpc))
    }

    /// The value that [`ServiceInstance::new`] builds.
    pub open spec fn new_spec(
        service_id: Seq<char>,
        namespace: Seq<char>,
        group: Seq<char>,
        name: Seq<char>,
        http: Option<EndpointView>,
        grpc: Option<EndpointView>,
    ) -> ServiceInstanceView {
        ServiceInstanceView {
            service_id,
            namespace,
            group,
            name,
            http,
            grpc,
            endpoints: initial_endpoints(http, grpc),
            metadata: Seq::empty(),
            weight: default_weight_spec(),
            enabled: true,
            healthy: true,
        }
    }

    /// The identifier that [`ServiceInstance::simple`] gives: `name-host-port`.
    pub open spec fn simple_id(name: Seq<char>, host: Seq<char>, port: u16) -> Seq<char> {
        name + seq!['-'] + host + seq!['-'] + decimal(port as nat)
    }

    /// A quick HTTP instance in namespace and group `default`, identified as `name-host-port`.
    pub fn simple(service_name: &str, host: &str, port: u16) -> (r: Self)
        ensures
            r@ == ServiceInstance::new_spec(
                ServiceInstance::simple_id(service_name@, host@, port),
                seq!['d', 'e', 'f', 'a', 'u', 'l', 't'],
                seq!['d', 'e', 'f', 'a', 'u', 'l', 't'],
                service_name@,
                Some(EndpointView { address: host@, port, scheme: None }),
                None,
            ),
    {
        let endpoint = Endpoint::new(host, port);
        let mut id = service_name.to_string();
        push_char(&mut id, '-');
        let id2 = concat_str(id.as_str(), host);
        let mut id3 = id2;
        push_char(&mut id3, '-');
        push_decimal(&mut id3, port as u64);
        assert(id3@ =~= ServiceInstance::simple_id(service_name@, host@, port));
        proof {
            reveal_strlit("default");
        }
        assert("default"@ =~= seq!['d', 'e', 'f', 'a', 'u', 'l', 't']);
        ServiceInstance::new_http(id3.as_str(), "default", "default", service_name, endpoint)
    }

    /// The service name.
    pub fn service_name(&self) -> (r: &str)
        ensures
            r@ == self.name@,
    {
        self.name.as_str()
    }

    /// The same instance with `key` set to `val` in its metadata.
    pub fn with_metadata(self, key: &str, val: &str) -> (r: Self)
        ensures
            r@ == (ServiceInstanceView { metadata: upsert(self@.metadata, key@, val@), ..self@ }),
    {
        let mut s = self;
        s.metadata.insert(key.to_string(), val.to_string());
        s
    }

    /// The same instance with the given weight (in hundredths).
    pub fn with_weight(self, weight: u32) -> (r: Self)
        ensures
            r@ == (ServiceInstanceView { weight, ..self@ }),
    {
        let mut s = self;
        s.weight = weight;
        s
    }

    /// The same instance with an extra named endpoint; a name equal to `http` or
    /// `grpc` up to ASCII case also sets that protocol endpoint.
    pub fn with_endpoint(self, name: &str, endpoint: Endpoint) -> (r: Self)
        ensures
            r@ == (ServiceInstanceView {
                http: if eq_ignore_ascii_case_spec(name@, seq!['h', 't', 't', 'p']) {
                    Some(endpoint@)
                } else {
                    self@.http
                },
                grpc: if !eq_ignore_ascii_case_spec(name@, seq!['h', 't', 't', 'p'])
                    && eq_ignore_ascii_case_spec(name@, seq!['g', 'r', 'p', 'c']) {
                    Some(endpoint@)
                } else {
                    self@.grpc
                },
                endpoints: upsert(self@.endpoints, name@, endpoint@),
                ..self@
            }),
    {
        proof {
            reveal_strlit("http");
            reveal_strlit("grpc");
        }
        let mut s = self;
        if eq_ignore_ascii_case(name, "http") {
            s.http = Some(endpoint.clone());
        } else if eq_ignore_ascii_case(name, "grpc") {
            s.grpc = Some(endpoint.clone());
        }
        s.endpoints.insert(name.to_string(), endpoint);
        s
    }
}

} // verus!
