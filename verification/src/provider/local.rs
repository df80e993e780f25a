//! The in-process registry, for development and tests.
use vstd::prelude::*;
use crate::instance::{ServiceInstance, ServiceInstanceView, views};
use crate::strmap::{StrMap, has_key, lookup, remove_key, upsert, lemma_upsert, lemma_upsert_twice, lemma_remove_key};
use crate::traits::ServiceEvent;

verus! {

broadcast use vstd::string::group_string_axioms;

/// The instances of one service, by identifier.
pub open spec fn service_map(
    all: Seq<(Seq<char>, Seq<(Seq<char>, ServiceInstanceView)>)>,
    name: Seq<char>,
) -> Seq<(Seq<char>, ServiceInstanceView)> {
    match lookup(all, name) {
        Some(m) => m,
        None => Seq::empty(),
    }
}

/// What the local registry holds: instances per service and identifier, and
/// the instance this process registered, by service name and identifier.
pub struct LocalState {
    pub instances: Seq<(Seq<char>, Seq<(Seq<char>, ServiceInstanceView)>)>,
    pub registered: Option<(Seq<char>, Seq<char>)>,
}

/// The registry after storing `inst` under its service and identifier.
pub open spec fn with_instance(
    all: Seq<(Seq<char>, Seq<(Seq<char>, ServiceInstanceView)>)>,
    inst: ServiceInstanceView,
) -> Seq<(Seq<char>, Seq<(Seq<char>, ServiceInstanceView)>)> {
    upsert(all, inst.name, upsert(service_map(all, inst.name), inst.service_id, inst))
}

/// The registry after dropping instance `id` of service `name`; an unknown
/// service is left alone.
pub open spec fn without_instance(
    all: Seq<(Seq<char>, Seq<(Seq<char>, ServiceInstanceView)>)>,
    name: Seq<char>,
    id: Seq<char>,
) -> Seq<(Seq<char>, Seq<(Seq<char>, ServiceInstanceView)>)> {
    if has_key(all, name) {
        upsert(all, name, remove_key(service_map(all, name), id))
    } else {
        all
    }
}

/// A registry kept in memory: every change is also returned as the event to
/// broadcast to watchers.
#[derive(Debug)]
pub struct LocalRegistry {
    instances: StrMap<StrMap<ServiceInstance>>,
    registered_key: Option<(String, String)>,
}

impl LocalRegistry {
    /// Instances and the registration of this process.
    pub closed spec fn state(&self) -> LocalState {
        LocalState {
            instances: self.instances@,
            registered: match self.registered_key {
                Some(k) => Some((k.0@, k.1@)),
                None => None,
            },
        }
    }

    /// Every registry keeps one entry per service name, and one instance per
    /// identifier within it.
    pub proof fn lemma_state_unique(self)
        ensures
            crate::strmap::unique_keys(self.state().instances),
            forall|i: int|
                0 <= i < self.state().instances.len() ==> crate::strmap::unique_keys(
                    #[trigger] self.state().instances[i].1,
                ),
    {
        self.instances.lemma_nested_keys_unique();
    }

    /// An empty registry.
    pub fn new() -> (r: Self)
        ensures
            r.state() == (LocalState { instances: Seq::empty(), registered: None }),
    {
        LocalRegistry { instances: StrMap::new(), registered_key: None }
    }

    fn store(&mut self, instance: ServiceInstance)
        ensures
            final(self).state() == (LocalState {
                instances: with_instance(old(self).state().instances, instance@),
                registered: old(self).state().registered,
            }),
    {
        let ghost all = self.instances@;
        let ghost iv = instance@;
        proof {
            self.instances.lemma_keys_unique();
        }
        let name = instance.name.clone();
        let taken = self.instances.insert(instance.name.clone(), StrMap::new());
        let mut m = match taken {
            Some(m) => m,
            None => StrMap::new(),
        };
        assert(m@ == service_map(all, iv.name));
        m.insert(instance.service_id.clone(), instance);
        let ghost mv = m@;
        self.instances.insert(name, m);
        proof {
            lemma_upsert_twice(all, iv.name, Seq::<(Seq<char>, ServiceInstanceView)>::empty(), mv);
        }
    }

    fn drop_instance(&mut self, service_name: &str, service_id: &str)
        ensures
            final(self).state() == (LocalState {
                instances: without_instance(old(self).state().instances, service_name@, service_id@),
                registered: old(self).state().registered,
            }),
    {
        let ghost all = self.instances@;
        proof {
            self.instances.lemma_keys_unique();
        }
        if !self.instances.contains_key(service_name) {
            return;
        }
        let taken = self.instances.insert(service_name.to_string(), StrMap::new());
        let mut m = match taken {
            Some(m) => m,
            None => StrMap::new(),
        };
        assert(m@ == service_map(all, service_name@));
        m.remove(service_id);
        let ghost mv = m@;
        self.instances.insert(service_name.to_string(), m);
        proof {
            lemma_upsert_twice(all, service_name@, Seq::<(Seq<char>, ServiceInstanceView)>::empty(), mv);
        }
    }

    /// Stores `instance` and returns the upsert event to broadcast.
    pub fn add_instance(&mut self, instance: ServiceInstance) -> (e: ServiceEvent)
        ensures
            final(self).state() == (LocalState {
                instances: with_instance(old(self).state().instances, instance@),
                registered: old(self).state().registered,
            }),
            e matches ServiceEvent::Upsert(i) && i@ == instance@,
    {
        let copy = instance.clone();
        self.store(instance);
        ServiceEvent::Upsert(copy)
    }

    /// Drops instance `service_id` of `service_name` and returns the delete
    /// event to broadcast.
    pub fn remove_instance(&mut self, service_name: &str, service_id: &str) -> (e: ServiceEvent)
        ensures
            final(self).state() == (LocalState {
                instances: without_instance(old(self).state().instances, service_name@, service_id@),
                registered: old(self).state().registered,
            }),
            e matches ServiceEvent::Delete { service_name: n, service_id: i } && n@ == service_name@
                && i@ == service_id@,
    {
        self.drop_instance(service_name, service_id);
        ServiceEvent::Delete { service_name: service_name.to_string(), service_id: service_id.to_string() }
    }

    /// Drops every instance (the registration record is kept).
    pub fn clear(&mut self)
        ensures
            final(self).state() == (LocalState {
                instances: Seq::empty(),
                registered: old(self).state().registered,
            }),
    {
        self.instances.clear();
    }

    /// Registers this process's instance: stores it, remembers it for
    /// deregistration, and returns the upsert event to broadcast.
    pub fn register(&mut self, instance: &ServiceInstance) -> (e: ServiceEvent)
        ensures
            final(self).state() == (LocalState {
                instances: with_instance(old(self).state().instances, instance@),
                registered: Some((instance@.name, instance@.service_id)),
            }),
            e matches ServiceEvent::Upsert(i) && i@ == instance@,
    {
        self.store(instance.clone());
        self.registered_key = Some((instance.name.clone(), instance.service_id.clone()));
        ServiceEvent::Upsert(instance.clone())
    }

    /// Deregisters this process's instance, if one is registered, returning the
    /// delete event to broadcast.
    pub fn deregister(&mut self) -> (e: Option<ServiceEvent>)
        ensures
            match old(self).state().registered {
                Some((n, i)) => final(self).state() == (LocalState {
                    instances: without_instance(old(self).state().instances, n, i),
                    registered: None,
                }) && (e matches Some(ServiceEvent::Delete { service_name: en, service_id: ei }) && en@ == n
                    && ei@ == i),
                None => final(self).state() == old(self).state() && e is None,
            },
    {
        let key = self.registered_key.take();
        match key {
            Some((name, id)) => {
                self.drop_instance(name.as_str(), id.as_str());
                Some(ServiceEvent::Delete { service_name: name, service_id: id })
            },
            None => None,
        }
    }

    /// The instances of `service_name`, in the order they were first stored.
    pub fn list_instances(&self, service_name: &str) -> (r: Vec<ServiceInstance>)
        ensures
            views(r@) == service_map(self.state().instances, service_name@).map_values(
                |p: (Seq<char>, ServiceInstanceView)| p.1,
            ),
    {
        let ghost target = service_map(self.state().instances, service_name@).map_values(
            |p: (Seq<char>, ServiceInstanceView)| p.1,
        );
        match self.instances.get(service_name) {
            Some(m) => {
                let n = m.len();
                let mut out: Vec<ServiceInstance> = Vec::new();
                let mut i: usize = 0;
                while i < n
                    invariant
                        n == m@.len(),
                        target == m@.map_values(|p: (Seq<char>, ServiceInstanceView)| p.1),
                        0 <= i <= n,
                        views(out@) == target.take(i as int),
                    decreases n - i,
                {
                    let ghost before = out@;
                    let c = m.value_at(i).clone();
                    out.push(c);
                    assert(views(out@) =~= views(before).push(m@[i as int].1));
                    assert(views(out@) =~= target.take(i + 1));
                    i = i + 1;
                }
                assert(target.take(n as int) =~= target);
                out
            },
            None => {
                let out: Vec<ServiceInstance> = Vec::new();
                assert(views(out@) =~= target);
                out
            },
        }
    }
}

/// What is stored is what is listed: after storing an instance, its service's
/// listing holds it under its identifier and every other instance is kept.
pub proof fn law_store_then_list(
    all: Seq<(Seq<char>, Seq<(Seq<char>, ServiceInstanceView)>)>,
    inst: ServiceInstanceView,
)
    requires
        crate::strmap::unique_keys(all),
        crate::strmap::unique_keys(service_map(all, inst.name)),
    ensures
        lookup(service_map(with_instance(all, inst), inst.name), inst.service_id) == Some(inst),
        forall|id: Seq<char>| id != inst.service_id ==> #[trigger] lookup(service_map(with_instance(all, inst), inst.name), id)
            == lookup(service_map(all, inst.name), id),
        forall|name: Seq<char>| name != inst.name ==> #[trigger] service_map(with_instance(all, inst), name)
            == service_map(all, name),
{
    lemma_upsert(all, inst.name, upsert(service_map(all, inst.name), inst.service_id, inst));
    lemma_upsert(service_map(all, inst.name), inst.service_id, inst);
}

/// After dropping an instance it is no longer listed, and every other instance is kept.
pub proof fn law_remove_then_list(
    all: Seq<(Seq<char>, Seq<(Seq<char>, ServiceInstanceView)>)>,
    name: Seq<char>,
    id: Seq<char>,
)
    requires
        crate::strmap::unique_keys(all),
        crate::strmap::unique_keys(service_map(all, name)),
    ensures
        lookup(service_map(without_instance(all, name, id), name), id) is None,
        forall|other: Seq<char>| other != id ==> #[trigger] lookup(service_map(without_instance(all, name, id), name), other)
            == lookup(service_map(all, name), other),
        forall|n2: Seq<char>| n2 != name ==> #[trigger] service_map(without_instance(all, name, id), n2)
            == service_map(all, n2),
{
    if has_key(all, name) {
        lemma_upsert(all, name, remove_key(service_map(all, name), id));
        lemma_remove_key(service_map(all, name), id);
    } else {
        assert(lookup(all, name) is None);
    }
}


impl Default for LocalRegistry {
    fn default() -> (r: Self)
        ensures
            r.state() == (LocalState { instances: Seq::empty(), registered: None }),
    {
        LocalRegistry::new()
    }
}

} // verus!
