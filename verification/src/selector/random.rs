//! Random selection, seeded from the clock.
use vstd::prelude::*;
use crate::clock::now_nanos;
use crate::instance::{ServiceInstance, ServiceInstanceView};
use super::{SelectContext, SelectContextView, Selector, opt_index};

verus! {

/// The index a clock reading of `nanos` picks among `n` candidates.
pub open spec fn random_pick(n: nat, nanos: usize) -> Option<int> {
    if n == 0 {
        None
    } else if n == 1 {
        Some(0)
    } else {
        Some((nanos as int) % (n as int))
    }
}

/// Picks a candidate by the current time in nanoseconds.
#[derive(Debug, Default, Clone, Copy)]
pub struct RandomSelector;

impl RandomSelector {
    pub fn new() -> (r: Self) {
        RandomSelector
    }

    /// The pick for a given clock reading.
    pub fn select_with_nanos(instances: &[ServiceInstance], nanos: usize) -> (r: Option<usize>)
        ensures
            opt_index(r) == random_pick(instances@.len(), nanos),
            r matches Some(i) ==> i < instances@.len(),
    {
        let len = instances.len();
        if len == 0 {
            None
        } else if len == 1 {
            Some(0)
        } else {
            Some(nanos % len)
        }
    }
}

impl Selector for RandomSelector {
    open spec fn select_rel(
        self,
        next: Self,
        ctx: SelectContextView,
        instances: Seq<ServiceInstanceView>,
        pick: Option<int>,
    ) -> bool {
        exists|nanos: usize| pick == random_pick(instances.len(), nanos)
    }

    fn select_index(&mut self, ctx: &SelectContext, instances: &[ServiceInstance]) -> (r: Option<usize>) {
        let nanos = now_nanos();
        let r = RandomSelector::select_with_nanos(instances, nanos);
        assert(opt_index(r) == random_pick(instances@.len(), nanos));
        r
    }
}

} // verus!
