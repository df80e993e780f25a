//! Change events of service instances.
use vstd::prelude::*;
use crate::instance::{ServiceInstance, views};
use crate::text::str_eq;

verus! {

/// A change to the instances of a service.
#[derive(Debug, PartialEq)]
pub enum ServiceEvent {
    /// An instance came online or changed.
    Upsert(ServiceInstance),
    /// An instance went offline.
    Delete { service_name: String, service_id: String },
    /// The full instance list, replacing what was known.
    Reset(Vec<ServiceInstance>),
}

/// Copies of all instances.
pub fn clone_instances(s: &[ServiceInstance]) -> (r: Vec<ServiceInstance>)
    ensures
        views(r@) == views(s@),
{
    let mut out: Vec<ServiceInstance> = Vec::new();
    let mut i: usize = 0;
    while i < s.len()
        invariant
            0 <= i <= s@.len(),
            views(out@) == views(s@).take(i as int),
        decreases s@.len() - i,
    {
        let ghost before = out@;
        let c = s[i].clone();
        out.push(c);
        assert(views(out@) =~= views(before).push(s@[i as int]@));
        assert(views(out@) =~= views(s@).take(i + 1));
        i = i + 1;
    }
    assert(views(s@).take(s@.len() as int) =~= views(s@));
    out
}

impl Clone for ServiceEvent {
    fn clone(&self) -> (r: Self)
        ensures
            match (self, r) {
                (ServiceEvent::Upsert(a), ServiceEvent::Upsert(b)) => a@ == b@,
                (
                    ServiceEvent::Delete { service_name: n1, service_id: i1 },
                    ServiceEvent::Delete { service_name: n2, service_id: i2 },
                ) => n1@ == n2@ && i1@ == i2@,
                (ServiceEvent::Reset(a), ServiceEvent::Reset(b)) => views(a@) == views(b@),
                _ => false,
            },
    {
        match self {
            ServiceEvent::Upsert(a) => ServiceEvent::Upsert(a.clone()),
            ServiceEvent::Delete { service_name, service_id } => ServiceEvent::Delete {
                service_name: service_name.clone(),
                service_id: service_id.clone(),
            },
            ServiceEvent::Reset(a) => ServiceEvent::Reset(clone_instances(a.as_slice())),
        }
    }
}

/// The event belongs to service `name`: an upsert of one of its instances, a
/// delete naming it, or a reset whose first instance is one of its instances.
pub open spec fn event_concerns(event: ServiceEvent, name: Seq<char>) -> bool {
    match event {
        ServiceEvent::Upsert(inst) => inst.name@ == name,
        ServiceEvent::Delete { service_name, .. } => service_name@ == name,
        ServiceEvent::Reset(list) => list@.len() > 0 && list@[0].name@ == name,
    }
}

/// Whether a watcher of service `name` should receive `event`.
pub fn concerns(event: &ServiceEvent, name: &str) -> (r: bool)
    ensures
        r == event_concerns(*event, name@),
{
    match event {
        ServiceEvent::Upsert(inst) => str_eq(inst.name.as_str(), name),
        ServiceEvent::Delete { service_name, .. } => str_eq(service_name.as_str(), name),
        ServiceEvent::Reset(list) => {
            if list.len() == 0 {
                false
            } else {
                str_eq(list[0].name.as_str(), name)
            }
        },
    }
}

} // verus!
