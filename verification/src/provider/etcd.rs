//! What the etcd provider computes: keys, timeouts, lease settings, watch
//! events, and the decisions of its lease keep-alive loop.
use vstd::prelude::*;
use crate::config::RegistryConfig;
use crate::text::{TrimSet, chars_of, concat_str, push_char, string_from_range, trim_spec, trim_str};
use crate::traits::ServiceEvent;

verus! {

broadcast use vstd::string::group_string_axioms;

/// `/` followed by the piece.
pub open spec fn slash_then(piece: Seq<char>) -> Seq<char> {
    seq!['/'] + trim_spec(piece, TrimSet::Slash)
}

/// `/{namespace}/{group}/{service}/{id}`, each part without surrounding `/`.
pub open spec fn instance_key_spec(ns: Seq<char>, group: Seq<char>, name: Seq<char>, id: Seq<char>) -> Seq<char> {
    slash_then(ns) + slash_then(group) + slash_then(name) + slash_then(id)
}

/// `/{namespace}/{group}/{service}/`, each part without surrounding `/`.
pub open spec fn service_prefix_spec(ns: Seq<char>, group: Seq<char>, name: Seq<char>) -> Seq<char> {
    slash_then(ns) + slash_then(group) + slash_then(name) + seq!['/']
}

/// The text after the last `/` (all of it when there is none).
pub open spec fn last_segment(s: Seq<char>) -> Seq<char>
    decreases s.len(),
{
    if s.len() == 0 {
        Seq::empty()
    } else if s.last() == '/' {
        Seq::empty()
    } else {
        last_segment(s.drop_last()).push(s.last())
    }
}

/// The instance identifier a key ends with (`key.rsplit('/').next()`).
pub fn service_id_from_key(key: &str) -> (r: String)
    ensures
        r@ == last_segment(key@),
{
    let cs = chars_of(key);
    let mut start = cs.len();
    assert(cs@.subrange(0, cs@.len() as int) =~= cs@);
    assert(last_segment(cs@) + cs@.subrange(cs@.len() as int, cs@.len() as int) =~= last_segment(cs@));
    while start > 0 && cs[start - 1] != '/'
        invariant
            cs@ == key@,
            0 <= start <= cs@.len(),
            last_segment(cs@) == last_segment(cs@.subrange(0, start as int)) + cs@.subrange(
                start as int,
                cs@.len() as int,
            ),
        decreases start,
    {
        let ghost pre = cs@.subrange(0, start as int);
        assert(pre.drop_last() =~= cs@.subrange(0, start - 1));
        assert(cs@.subrange(start - 1, cs@.len() as int) =~= seq![pre.last()] + cs@.subrange(
            start as int,
            cs@.len() as int,
        ));
        assert(last_segment(pre) == last_segment(pre.drop_last()).push(pre.last()));
        assert(last_segment(pre.drop_last()).push(pre.last()) + cs@.subrange(start as int, cs@.len() as int)
            =~= last_segment(pre.drop_last()) + cs@.subrange(start - 1, cs@.len() as int));
        start = start - 1;
    }
    assert(last_segment(cs@.subrange(0, start as int)) =~= Seq::<char>::empty());
    assert(Seq::<char>::empty() + cs@.subrange(start as int, cs@.len() as int) =~= cs@.subrange(
        start as int,
        cs@.len() as int,
    ));
    string_from_range(cs.as_slice(), start, cs.len())
}

/// The delete event for a removed key of service `service_name`.
pub fn delete_event(service_name: &str, key: &str) -> (e: ServiceEvent)
    ensures
        e matches ServiceEvent::Delete { service_name: n, service_id: i } && n@ == service_name@ && i@
            == last_segment(key@),
{
    ServiceEvent::Delete { service_name: service_name.to_string(), service_id: service_id_from_key(key) }
}

fn push_part(out: String, piece: &str) -> (r: String)
    ensures
        r@ == out@ + slash_then(piece@),
{
    let mut o = out;
    push_char(&mut o, '/');
    let t = trim_str(piece, TrimSet::Slash);
    let r = concat_str(o.as_str(), t.as_str());
    assert(r@ =~= out@ + slash_then(piece@));
    r
}

/// The etcd provider's settings and the values derived from them.
#[derive(Debug, Clone)]
pub struct EtcdRegistry {
    config: RegistryConfig,
}

/// The lease TTL requested: the configured TTL as a signed number, or 10
/// seconds when it is zero.
pub open spec fn lease_ttl_spec(ttl: u64) -> i64 {
    if ttl > 0 {
        ttl as i64
    } else {
        10
    }
}

impl EtcdRegistry {
    pub closed spec fn config_spec(&self) -> RegistryConfig {
        self.config
    }

    pub fn new(config: RegistryConfig) -> (r: Self)
        ensures
            r.config_spec() == config,
    {
        EtcdRegistry { config }
    }

    pub fn config(&self) -> (r: &RegistryConfig)
        ensures
            *r == self.config_spec(),
    {
        &self.config
    }

    /// Registration and discovery are on: enabled and with a non-blank host.
    pub fn is_active(&self) -> (r: bool)
        ensures
            r == (self.config_spec().enable && trim_spec(self.config_spec().host@, TrimSet::WhiteSpace).len() > 0),
    {
        if !self.config.enable {
            return false;
        }
        let t = trim_str(self.config.host.as_str(), TrimSet::WhiteSpace);
        t.as_str().unicode_len() > 0
    }

    /// The credentials to connect with: the user and password when both are
    /// configured and the user is not empty, else none.
    pub fn credentials(&self) -> (r: Option<(String, String)>)
        ensures
            match (self.config_spec().user, self.config_spec().password) {
                (Some(u), Some(p)) => if u@.len() > 0 {
                    r matches Some((ru, rp)) && ru@ == u@ && rp@ == p@
                } else {
                    r is None
                },
                _ => r is None,
            },
    {
        match (&self.config.user, &self.config.password) {
            (Some(u), Some(p)) => {
                if u.as_str().unicode_len() > 0 {
                    Some((u.clone(), p.clone()))
                } else {
                    None
                }
            },
            _ => None,
        }
    }

    /// The timeout of one operation, in seconds: the configured one, at least 1.
    pub fn op_timeout_secs(&self) -> (r: u64)
        ensures
            r == if self.config_spec().timeout < 1 { 1 } else { self.config_spec().timeout },
    {
        if self.config.timeout < 1 {
            1
        } else {
            self.config.timeout
        }
    }

    /// The lease TTL requested, in seconds.
    pub fn lease_ttl(&self) -> (r: i64)
        ensures
            r == lease_ttl_spec(self.config_spec().ttl),
    {
        if self.config.ttl > 0 {
            self.config.ttl as i64
        } else {
            10
        }
    }

    /// Seconds between heartbeats: a third of the TTL, at least 1.
    pub fn heartbeat_interval_secs(&self) -> (r: u64)
        ensures
            r == if lease_ttl_spec(self.config_spec().ttl) / 3 < 1 { 1 } else {
                (lease_ttl_spec(self.config_spec().ttl) / 3) as u64
            },
    {
        let ttl = self.lease_ttl();
        let third = ttl / 3;
        if third < 1 {
            1
        } else {
            third as u64
        }
    }

    /// The key an instance is stored under: `/{namespace}/{group}/{service}/{id}`.
    pub fn make_instance_key(&self, service_name: &str, service_id: &str) -> (r: String)
        ensures
            r@ == instance_key_spec(self.config_spec().namespace@, self.config_spec().group@, service_name@, service_id@),
    {
        let a = push_part(String::new(), self.config.namespace.as_str());
        let b = push_part(a, self.config.group.as_str());
        let c = push_part(b, service_name);
        let d = push_part(c, service_id);
        assert(d@ =~= instance_key_spec(self.config.namespace@, self.config.group@, service_name@, service_id@));
        d
    }

    /// The prefix all instances of a service are stored under: `/{namespace}/{group}/{service}/`.
    pub fn make_service_prefix(&self, service_name: &str) -> (r: String)
        ensures
            r@ == service_prefix_spec(self.config_spec().namespace@, self.config_spec().group@, service_name@),
    {
        let a = push_part(String::new(), self.config.namespace.as_str());
        let b = push_part(a, self.config.group.as_str());
        let mut c = push_part(b, service_name);
        push_char(&mut c, '/');
        assert(c@ =~= service_prefix_spec(self.config.namespace@, self.config.group@, service_name@));
        c
    }
}

/// Where the lease keep-alive loop stands.
#[derive(Debug, Clone, Copy, PartialEq, Eq)]
pub enum LeasePhase {
    Connecting,
    Registering,
    OpeningKeepAlive,
    Alive,
    Stopped,
}

/// What the lease loop learns.
#[derive(Debug, Clone, Copy, PartialEq, Eq)]
pub enum LeaseInput {
    Cancelled,
    Connected,
    ConnectFailed,
    Registered,
    RegisterFailed,
    KeepAliveOpened,
    KeepAliveFailed,
    /// A heartbeat was answered.
    Renewed,
    /// Sending a heartbeat failed, or the keep-alive stream ended or broke.
    Lost,
}

/// What the lease loop does next.
#[derive(Debug, Clone, Copy, PartialEq, Eq)]
pub enum LeaseAction {
    Stop,
    /// Drop the client, wait this many seconds, then connect again.
    RetryAfter(u64),
    /// Grant a lease and write the instance key.
    Register,
    /// Open the keep-alive stream; `first` tells a first registration from a renewal.
    OpenKeepAlive { first: bool },
    /// Send heartbeats every this many seconds and read the replies.
    Heartbeat(u64),
}

/// The lease loop's transition: the next phase and action, and whether the
/// next registration is still the first one.
pub open spec fn lease_step(phase: LeasePhase, first: bool, input: LeaseInput, heartbeat: u64) -> (LeasePhase, bool, LeaseAction) {
    match input {
        LeaseInput::Cancelled => (LeasePhase::Stopped, first, LeaseAction::Stop),
        LeaseInput::ConnectFailed => (LeasePhase::Connecting, first, LeaseAction::RetryAfter(3)),
        LeaseInput::RegisterFailed => (LeasePhase::Connecting, first, LeaseAction::RetryAfter(3)),
        LeaseInput::KeepAliveFailed => (LeasePhase::Connecting, first, LeaseAction::RetryAfter(2)),
        LeaseInput::Lost => (LeasePhase::Connecting, first, LeaseAction::RetryAfter(2)),
        LeaseInput::Connected => (LeasePhase::Registering, first, LeaseAction::Register),
        LeaseInput::Registered => (LeasePhase::OpeningKeepAlive, false, LeaseAction::OpenKeepAlive { first }),
        LeaseInput::KeepAliveOpened => (LeasePhase::Alive, first, LeaseAction::Heartbeat(heartbeat)),
        LeaseInput::Renewed => (LeasePhase::Alive, first, LeaseAction::Heartbeat(heartbeat)),
    }
}

/// The decisions of the background loop that keeps an etcd registration
/// alive: register, keep the lease alive, and start over after failures.
#[derive(Debug)]
pub struct LeaseLoop {
    phase: LeasePhase,
    first_registration: bool,
    heartbeat_secs: u64,
}

impl LeaseLoop {
    pub closed spec fn phase_spec(&self) -> LeasePhase {
        self.phase
    }

    pub closed spec fn first_spec(&self) -> bool {
        self.first_registration
    }

    pub closed spec fn heartbeat_spec(&self) -> u64 {
        self.heartbeat_secs
    }

    /// A loop about to connect for its first registration.
    pub fn new(heartbeat_secs: u64) -> (r: Self)
        ensures
            r.phase_spec() == LeasePhase::Connecting,
            r.first_spec(),
            r.heartbeat_spec() == heartbeat_secs,
    {
        LeaseLoop { phase: LeasePhase::Connecting, first_registration: true, heartbeat_secs }
    }

    pub fn phase(&self) -> (r: LeasePhase)
        ensures
            r == self.phase_spec(),
    {
        self.phase
    }

    /// Handles one input.
    pub fn step(&mut self, input: LeaseInput) -> (action: LeaseAction)
        ensures
            (final(self).phase_spec(), final(self).first_spec(), action) == lease_step(
                old(self).phase_spec(),
                old(self).first_spec(),
                input,
                old(self).heartbeat_spec(),
            ),
            final(self).heartbeat_spec() == old(self).heartbeat_spec(),
    {
        let hb = self.heartbeat_secs;
        match input {
            LeaseInput::Cancelled => {
                self.phase = LeasePhase::Stopped;
                LeaseAction::Stop
            },
            LeaseInput::ConnectFailed | LeaseInput::RegisterFailed => {
                self.phase = LeasePhase::Connecting;
                LeaseAction::RetryAfter(3)
            },
            LeaseInput::KeepAliveFailed | LeaseInput::Lost => {
                self.phase = LeasePhase::Connecting;
                LeaseAction::RetryAfter(2)
            },
            LeaseInput::Connected => {
                self.phase = LeasePhase::Registering;
                LeaseAction::Register
            },
            LeaseInput::Registered => {
                let first = self.first_registration;
                self.phase = LeasePhase::OpeningKeepAlive;
                self.first_registration = false;
                LeaseAction::OpenKeepAlive { first }
            },
            LeaseInput::KeepAliveOpened | LeaseInput::Renewed => {
                self.phase = LeasePhase::Alive;
                LeaseAction::Heartbeat(hb)
            },
        }
    }
}

} // verus!
