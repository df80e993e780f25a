//! Registry configuration and the endpoint list it describes.
use vstd::prelude::*;
use crate::text::{
    TrimSet, chars_of, concat_str, contains_char, decimal, push_char, push_decimal, split_ranges,
    split_spec, starts_with, starts_with_spec, string_from_range, trim_range, trim_spec,
};

verus! {

broadcast use vstd::string::group_string_axioms;

/// Unified registry and discovery configuration.
#[derive(Debug, Clone)]
pub struct RegistryConfig {
    pub enable: bool,
    /// Provider kind: `"etcd"`, `"nacos"` or `"local"`.
    pub kind: String,
    /// One host, or a comma-separated list of hosts (`"10.0.0.1:2379,10.0.0.2:2379"`).
    pub host: String,
    pub port: u16,
    pub namespace: String,
    pub group: String,
    pub user: Option<String>,
    pub password: Option<String>,
    /// Per-operation timeout, in seconds.
    pub timeout: u64,
    /// Lease time-to-live, in seconds.
    pub ttl: u64,
    /// Interval between snapshot refreshes, in seconds.
    pub cache_ttl: u64,
    /// Directory for on-disk snapshots (optional).
    pub disk_cache_dir: Option<String>,
    /// Whether on-disk snapshots are kept.
    pub disk_cache_enabled: bool,
}

pub fn default_true() -> (r: bool)
    ensures
        r,
{
    true
}

pub fn default_kind() -> (r: String)
    ensures
        r@ == seq!['e', 't', 'c', 'd'],
{
    proof {
        reveal_strlit("etcd");
    }
    let r = "etcd".to_string();
    assert(r@ =~= seq!['e', 't', 'c', 'd']);
    r
}

pub fn default_host() -> (r: String)
    ensures
        r@ == seq!['1', '2', '7', '.', '0', '.', '0', '.', '1'],
{
    proof {
        reveal_strlit("127.0.0.1");
    }
    let r = "127.0.0.1".to_string();
    assert(r@ =~= seq!['1', '2', '7', '.', '0', '.', '0', '.', '1']);
    r
}

pub fn default_port() -> (r: u16)
    ensures
        r == 2379,
{
    2379
}

pub fn default_namespace() -> (r: String)
    ensures
        r@ == seq!['p', 'e', 'c', 's'],
{
    proof {
        reveal_strlit("pecs");
    }
    let r = "pecs".to_string();
    assert(r@ =~= seq!['p', 'e', 'c', 's']);
    r
}

pub fn default_group() -> (r: String)
    ensures
        r@ == seq!['d', 'e', 'v'],
{
    proof {
        reveal_strlit("dev");
    }
    let r = "dev".to_string();
    assert(r@ =~= seq!['d', 'e', 'v']);
    r
}

pub fn default_timeout() -> (r: u64)
    ensures
        r == 10,
{
    10
}

pub fn default_ttl() -> (r: u64)
    ensures
        r == 30,
{
    30
}

pub fn default_cache_ttl() -> (r: u64)
    ensures
        r == 5,
{
    5
}

impl Default for RegistryConfig {
    fn default() -> (r: Self)
        ensures
            r.enable,
            r.kind@ == seq!['e', 't', 'c', 'd'],
            r.host@ == seq!['1', '2', '7', '.', '0', '.', '0', '.', '1'],
            r.port == 2379,
            r.namespace@ == seq!['p', 'e', 'c', 's'],
            r.group@ == seq!['d', 'e', 'v'],
            r.user is None,
            r.password is None,
            r.timeout == 10,
            r.ttl == 30,
            r.cache_ttl == 5,
            r.disk_cache_dir is None,
            !r.disk_cache_enabled,
    {
        RegistryConfig {
            enable: default_true(),
            kind: default_kind(),
            host: default_host(),
            port: default_port(),
            namespace: default_namespace(),
            group: default_group(),
            user: None,
            password: None,
            timeout: default_timeout(),
            ttl: default_ttl(),
            cache_ttl: default_cache_ttl(),
            disk_cache_dir: None,
            disk_cache_enabled: false,
        }
    }
}

pub open spec fn http_prefix() -> Seq<char> {
    seq!['h', 't', 't', 'p', ':', '/', '/']
}

pub open spec fn https_prefix() -> Seq<char> {
    seq!['h', 't', 't', 'p', 's', ':', '/', '/']
}

/// `http://host:port`.
pub open spec fn single_endpoint(host: Seq<char>, port: u16) -> Seq<char> {
    http_prefix() + host + seq![':'] + decimal(port as nat)
}

/// One cluster address as a URL: kept when it has an `http(s)://` scheme,
/// given `http://` when it names a port, given `http://` and `:port` otherwise.
pub open spec fn address_url(addr: Seq<char>, port: u16) -> Seq<char> {
    if starts_with_spec(addr, http_prefix()) || starts_with_spec(addr, https_prefix()) {
        addr
    } else if addr.contains(':') {
        http_prefix() + addr
    } else {
        single_endpoint(addr, port)
    }
}

/// The URLs of the comma-separated pieces, trimmed, with empty pieces dropped.
pub open spec fn cluster_urls(pieces: Seq<Seq<char>>, port: u16) -> Seq<Seq<char>>
    decreases pieces.len(),
{
    if pieces.len() == 0 {
        Seq::empty()
    } else {
        let rest = cluster_urls(pieces.drop_last(), port);
        let t = trim_spec(pieces.last(), TrimSet::WhiteSpace);
        if t.len() == 0 {
            rest
        } else {
            rest.push(address_url(t, port))
        }
    }
}

/// The registry endpoints that `host` and `port` describe.
pub open spec fn endpoints_spec(host: Seq<char>, port: u16) -> Seq<Seq<char>> {
    if host.contains(',') {
        cluster_urls(split_spec(host, ','), port)
    } else {
        seq![single_endpoint(host, port)]
    }
}

fn address_to_url(cs: &[char], lo: usize, hi: usize, port: u16) -> (r: String)
    requires
        lo <= hi <= cs@.len(),
    ensures
        r@ == address_url(cs@.subrange(lo as int, hi as int), port),
{
    proof {
        reveal_strlit("http://");
        reveal_strlit("https://");
    }
    assert("http://"@ =~= http_prefix());
    assert("https://"@ =~= https_prefix());
    let mut piece: Vec<char> = Vec::new();
    let mut i = lo;
    while i < hi
        invariant
            lo <= i <= hi <= cs@.len(),
            piece@ == cs@.subrange(lo as int, i as int),
        decreases hi - i,
    {
        piece.push(cs[i]);
        assert(piece@ =~= cs@.subrange(lo as int, i + 1));
        i = i + 1;
    }
    let addr = string_from_range(cs, lo, hi);
    if starts_with(piece.as_slice(), "http://") || starts_with(piece.as_slice(), "https://") {
        addr
    } else if contains_char(piece.as_slice(), ':') {
        let r = concat_str("http://", addr.as_str());
        r
    } else {
        let mut r = concat_str("http://", addr.as_str());
        push_char(&mut r, ':');
        push_decimal(&mut r, port as u64);
        assert(r@ =~= single_endpoint(addr@, port));
        r
    }
}

impl RegistryConfig {
    /// The directory that instance snapshots are saved in and recovered from
    /// when the registry is down: the configured directory when the disk
    /// cache is enabled, else none.
    pub fn snapshot_dir(&self) -> (r: Option<String>)
        ensures
            crate::instance::opt_string_view(r) == (if self.disk_cache_enabled {
                crate::instance::opt_string_view(self.disk_cache_dir)
            } else {
                None
            }),
    {
        if self.disk_cache_enabled {
            crate::instance::clone_opt_string(&self.disk_cache_dir)
        } else {
            None
        }
    }

    /// The single-node URL, `http://host:port`.
    pub fn endpoint(&self) -> (r: String)
        ensures
            r@ == single_endpoint(self.host@, self.port),
    {
        proof {
            reveal_strlit("http://");
        }
        assert("http://"@ =~= http_prefix());
        let mut r = concat_str("http://", self.host.as_str());
        push_char(&mut r, ':');
        push_decimal(&mut r, self.port as u64);
        assert(r@ =~= single_endpoint(self.host@, self.port));
        r
    }

    /// The cluster endpoint URLs: each comma-separated host, trimmed and made a
    /// URL, or the single-node URL when the host has no comma.
    pub fn endpoints(&self) -> (r: Vec<String>)
        ensures
            r@.map_values(|s: String| s@) == endpoints_spec(self.host@, self.port),
    {
        let cs = chars_of(self.host.as_str());
        if !contains_char(cs.as_slice(), ',') {
            let mut v: Vec<String> = Vec::new();
            v.push(self.endpoint());
            assert(v@.map_values(|s: String| s@) =~= endpoints_spec(self.host@, self.port));
            return v;
        }
        let pieces = split_ranges(cs.as_slice(), ',');
        let ghost spl = split_spec(cs@, ',');
        let mut out: Vec<String> = Vec::new();
        let mut k: usize = 0;
        while k < pieces.len()
            invariant
                cs@ == self.host@,
                spl == split_spec(cs@, ','),
                pieces@.len() == spl.len(),
                forall|j: int|
                    0 <= j < pieces@.len() ==> (#[trigger] pieces@[j]).0 <= pieces@[j].1 <= cs@.len()
                        && cs@.subrange(pieces@[j].0 as int, pieces@[j].1 as int) == spl[j],
                0 <= k <= pieces@.len(),
                out@.map_values(|s: String| s@) == cluster_urls(spl.take(k as int), self.port),
            decreases pieces@.len() - k,
        {
            let (a, b) = pieces[k];
            let (lo, hi) = trim_range(cs.as_slice(), a, b, TrimSet::WhiteSpace);
            let ghost before = out@;
            assert(spl.take(k + 1).drop_last() =~= spl.take(k as int));
            assert(spl.take(k + 1).last() == spl[k as int]);
            if lo < hi {
                let url = address_to_url(cs.as_slice(), lo, hi, self.port);
                out.push(url);
                assert(out@.map_values(|s: String| s@) =~= before.map_values(|s: String| s@).push(url@));
            }
            k = k + 1;
        }
        assert(spl.take(pieces@.len() as int) =~= spl);
        out
    }
}

} // verus!
