//! Load-balancing selectors and the context they route with.
use vstd::prelude::*;
use crate::instance::{ServiceInstance, ServiceInstanceView, views, opt_string_view, clone_opt_string};
use crate::strmap::{StrMap, upsert};

pub mod canary;
pub mod consistent_hash;
pub mod p2c;
pub mod random;
pub mod round_robin;
pub mod smooth;
pub mod weighted;

pub use canary::TagFilterSelector;
pub use consistent_hash::ConsistentHashSelector;
pub use p2c::{P2CGuard, P2CSelector};
pub use random::RandomSelector;
pub use round_robin::RoundRobinSelector;
pub use weighted::WeightedRoundRobinSelector;

verus! {

broadcast use vstd::string::group_string_axioms;

/// Routing context of one selection.
#[derive(Debug)]
pub struct SelectContext {
    pub service_name: String,
    pub client_ip: Option<String>,
    pub required_tag: Option<(String, String)>,
    /// Routing / sharding key (used by consistent hashing).
    pub key: Option<String>,
    pub metadata: StrMap<String>,
}

/// The mathematical value of a [`SelectContext`].
pub struct SelectContextView {
    pub service_name: Seq<char>,
    pub client_ip: Option<Seq<char>>,
    pub required_tag: Option<(Seq<char>, Seq<char>)>,
    pub key: Option<Seq<char>>,
    pub metadata: Seq<(Seq<char>, Seq<char>)>,
}

pub open spec fn opt_pair_view(o: Option<(String, String)>) -> Option<(Seq<char>, Seq<char>)> {
    match o {
        Some(p) => Some((p.0@, p.1@)),
        None => None,
    }
}

impl View for SelectContext {
    type V = SelectContextView;

    open spec fn view(&self) -> SelectContextView {
        SelectContextView {
            service_name: self.service_name@,
            client_ip: opt_string_view(self.client_ip),
            required_tag: opt_pair_view(self.required_tag),
            key: opt_string_view(self.key),
            metadata: self.metadata@,
        }
    }
}

impl Clone for SelectContext {
    fn clone(&self) -> (r: Self)
        ensures
            r@ == self@,
    {
        SelectContext {
            service_name: self.service_name.clone(),
            client_ip: clone_opt_string(&self.client_ip),
            required_tag: match &self.required_tag {
                Some((k, v)) => Some((k.clone(), v.clone())),
                None => None,
            },
            key: clone_opt_string(&self.key),
            metadata: self.metadata.clone(),
        }
    }
}

impl Default for SelectContext {
    fn default() -> (r: Self)
        ensures
            r@ == (SelectContextView {
                service_name: Seq::empty(),
                client_ip: None,
                required_tag: None,
                key: None,
                metadata: Seq::empty(),
            }),
    {
        SelectContext {
            service_name: String::new(),
            client_ip: None,
            required_tag: None,
            key: None,
            metadata: StrMap::new(),
        }
    }
}

impl SelectContext {
    /// A context for `service_name` with nothing else set.
    pub fn new(service_name: &str) -> (r: Self)
        ensures
            r@ == (SelectContextView {
                service_name: service_name@,
                client_ip: None,
                required_tag: None,
                key: None,
                metadata: Seq::empty(),
            }),
    {
        SelectContext {
            service_name: service_name.to_string(),
            client_ip: None,
            required_tag: None,
            key: None,
            metadata: StrMap::new(),
        }
    }

    /// Requires instances tagged `key = val`.
    pub fn with_tag(self, key: &str, val: &str) -> (r: Self)
        ensures
            r@ == (SelectContextView { required_tag: Some((key@, val@)), ..self@ }),
    {
        let mut c = self;
        c.required_tag = Some((key.to_string(), val.to_string()));
        c
    }

    /// Sets the client address.
    pub fn with_client_ip(self, ip: &str) -> (r: Self)
        ensures
            r@ == (SelectContextView { client_ip: Some(ip@), ..self@ }),
    {
        let mut c = self;
        c.client_ip = Some(ip.to_string());
        c
    }

    /// Sets the routing key.
    pub fn with_key(self, key: &str) -> (r: Self)
        ensures
            r@ == (SelectContextView { key: Some(key@), ..self@ }),
    {
        let mut c = self;
        c.key = Some(key.to_string());
        c
    }

    /// Sets `key = val` in the context metadata.
    pub fn with_metadata(self, key: &str, val: &str) -> (r: Self)
        ensures
            r@ == (SelectContextView { metadata: upsert(self@.metadata, key@, val@), ..self@ }),
    {
        let mut c = self;
        c.metadata.insert(key.to_string(), val.to_string());
        c
    }
}

/// `Some(i)` as an integer index.
pub open spec fn opt_index(o: Option<usize>) -> Option<int> {
    match o {
        Some(i) => Some(i as int),
        None => None,
    }
}

/// `r` is the instance that index `p` names.
pub open spec fn picks<'a>(s: Seq<ServiceInstance>, p: Option<int>, r: Option<&'a ServiceInstance>) -> bool {
    match p {
        Some(i) => 0 <= i < s.len() && r is Some && *r->0 == s[i],
        None => r is None,
    }
}

/// A load-balancing strategy: picks one of the candidate instances.
pub trait Selector: Sized {
    /// A call that starts in state `self` may end in state `next` having picked
    /// the candidate at index `pick` (`None`: no candidate picked).
    spec fn select_rel(
        self,
        next: Self,
        ctx: SelectContextView,
        instances: Seq<ServiceInstanceView>,
        pick: Option<int>,
    ) -> bool;

    /// Picks the index of one candidate.
    fn select_index(&mut self, ctx: &SelectContext, instances: &[ServiceInstance]) -> (r: Option<usize>)
        ensures
            Self::select_rel(*old(self), *final(self), ctx@, views(instances@), opt_index(r)),
            r matches Some(i) ==> i < instances@.len(),
    ;

    /// Picks one candidate.
    fn select<'a>(&mut self, ctx: &SelectContext, instances: &'a [ServiceInstance]) -> (r: Option<
        &'a ServiceInstance,
    >)
        ensures
            exists|p: Option<int>|
                Self::select_rel(*old(self), *final(self), ctx@, views(instances@), p) && picks(
                    instances@,
                    p,
                    r,
                ),
    {
        let i = self.select_index(ctx, instances);
        match i {
            Some(i) => {
                let r = Some(&instances[i]);
                assert(picks(instances@, opt_index(Some(i)), r));
                r
            },
            None => {
                assert(picks(instances@, opt_index(i), None));
                None
            },
        }
    }
}


/// Picks a copy of one of `instances` with `selector`; with no instances the
/// selector is not consulted and nothing is picked.
pub fn select_cloned<S: Selector>(selector: &mut S, ctx: &SelectContext, instances: &[ServiceInstance]) -> (r: Option<ServiceInstance>)
    ensures
        instances@.len() == 0 ==> r is None && *final(selector) == *old(selector),
        instances@.len() > 0 ==> exists|p: Option<int>|
            #[trigger] S::select_rel(*old(selector), *final(selector), ctx@, views(instances@), p) && match p {
                Some(i) => 0 <= i < instances@.len() && (r matches Some(x) && x@ == instances@[i]@),
                None => r is None,
            },
{
    if instances.len() == 0 {
        return None;
    }
    let i = selector.select_index(ctx, instances);
    match i {
        Some(i) => {
            let c = instances[i].clone();
            assert(S::select_rel(*old(selector), *selector, ctx@, views(instances@), opt_index(Some(i))));
            Some(c)
        },
        None => {
            assert(S::select_rel(*old(selector), *selector, ctx@, views(instances@), opt_index(i)));
            None
        },
    }
}

} // verus!
