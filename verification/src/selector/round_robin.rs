//! Round-robin selection with one counter per service.
use vstd::prelude::*;
use crate::instance::{ServiceInstance, ServiceInstanceView};
use crate::strmap::{StrMap, lookup, upsert};
use super::{SelectContext, SelectContextView, Selector};

verus! {

/// Cycles through the candidates of each service in turn.
#[derive(Debug)]
pub struct RoundRobinSelector {
    counters: StrMap<usize>,
}

/// The counter of `service`, 0 when it has none yet.
pub open spec fn counter_of(counters: Seq<(Seq<char>, usize)>, service: Seq<char>) -> usize {
    match lookup(counters, service) {
        Some(c) => c,
        None => 0,
    }
}

/// One round-robin step over `n` candidates: with two or more, the service's
/// counter `c` picks index `c % n` and moves on by one (wrapping at the top).
pub open spec fn rr_step(counters: Seq<(Seq<char>, usize)>, service: Seq<char>, n: nat) -> (
    Seq<(Seq<char>, usize)>,
    Option<int>,
) {
    if n == 0 {
        (counters, None)
    } else if n == 1 {
        (counters, Some(0))
    } else {
        let c = counter_of(counters, service);
        (
            upsert(counters, service, if c == usize::MAX { 0 } else { (c + 1) as usize }),
            Some((c as int) % (n as int)),
        )
    }
}

impl RoundRobinSelector {
    /// A selector whose counters all start at zero.
    pub fn new() -> (r: Self)
        ensures
            r.counters_spec() == Seq::<(Seq<char>, usize)>::empty(),
    {
        RoundRobinSelector { counters: StrMap::new() }
    }

    /// The counters, per service name.
    pub closed spec fn counters_spec(&self) -> Seq<(Seq<char>, usize)> {
        self.counters@
    }

    /// Every selector keeps one counter per service name.
    pub proof fn lemma_counters_unique(self)
        ensures
            crate::strmap::unique_keys(self.counters_spec()),
    {
        self.counters.lemma_keys_unique();
    }

    /// The counter of `service_name`, created at zero when missing.
    pub fn get_counter(&mut self, service_name: &str) -> (r: usize)
        ensures
            r == counter_of(old(self).counters_spec(), service_name@),
            final(self).counters_spec() == upsert(old(self).counters_spec(), service_name@, r),
    {
        match self.counters.get(service_name) {
            Some(c) => {
                let c = *c;
                self.counters.insert(service_name.to_string(), c);
                c
            },
            None => {
                self.counters.insert(service_name.to_string(), 0);
                0
            },
        }
    }
}

impl Selector for RoundRobinSelector {
    open spec fn select_rel(
        self,
        next: Self,
        ctx: SelectContextView,
        instances: Seq<ServiceInstanceView>,
        pick: Option<int>,
    ) -> bool {
        (next.counters_spec(), pick) == rr_step(self.counters_spec(), ctx.service_name, instances.len())
    }

    fn select_index(&mut self, ctx: &SelectContext, instances: &[ServiceInstance]) -> (r: Option<usize>) {
        let len = instances.len();
        if len == 0 {
            return None;
        }
        if len == 1 {
            return Some(0);
        }
        let c = match self.counters.get(ctx.service_name.as_str()) {
            Some(c) => *c,
            None => 0,
        };
        let next = if c == usize::MAX { 0 } else { c + 1 };
        self.counters.insert(ctx.service_name.clone(), next);
        Some(c % len)
    }
}


/// Round-robin visits the candidates in turn, with one counter per service:
/// on any selector, the pick after a pick at `a` is at `(a + 1) % n` (while
/// the counter has not reached the top of `usize`), and a selection for
/// `service` leaves every other service's counter as it was.
pub proof fn law_round_robin_cycles(sel: RoundRobinSelector, service: Seq<char>, n: nat)
    requires
        n >= 2,
        counter_of(sel.counters_spec(), service) < usize::MAX,
    ensures
        ({
            let counters = sel.counters_spec();
            let (c1, p1) = rr_step(counters, service, n);
            let (c2, p2) = rr_step(c1, service, n);
            &&& p1 == Some((counter_of(counters, service) as int) % (n as int))
            &&& p2 == Some(((counter_of(counters, service) as int) % (n as int) + 1) % (n as int))
            &&& forall|other: Seq<char>| other != service ==> #[trigger] counter_of(c1, other) == counter_of(counters, other)
        }),
{
    sel.lemma_counters_unique();
    let counters = sel.counters_spec();
    let c = counter_of(counters, service);
    crate::strmap::lemma_upsert(counters, service, (c + 1) as usize);
    let ci = c as int;
    let ni = n as int;
    assert((ci + 1) % ni == (ci % ni + 1) % ni) by (nonlinear_arith)
        requires
            ni >= 2,
            ci >= 0,
    {
        vstd::arithmetic::div_mod::lemma_add_mod_noop(ci, 1, ni);
        vstd::arithmetic::div_mod::lemma_small_mod(1, ni as nat);
    }
}

/// A fresh selector starts with the first candidate.
pub proof fn law_round_robin_starts_first(service: Seq<char>, n: nat)
    requires
        n >= 1,
    ensures
        rr_step(Seq::empty(), service, n).1 == Some(0int),
{
    if n >= 2 {
        assert(counter_of(Seq::<(Seq<char>, usize)>::empty(), service) == 0);
    }
}


/// The counters after a history of calls, each a service name and the number
/// of candidates passed, starting from `counters`.
pub open spec fn rr_run(counters: Seq<(Seq<char>, usize)>, calls: Seq<(Seq<char>, nat)>) -> Seq<(Seq<char>, usize)>
    decreases calls.len(),
{
    if calls.len() == 0 {
        counters
    } else {
        rr_step(rr_run(counters, calls.drop_last()), calls.last().0, calls.last().1).0
    }
}

/// How many calls of a history name `service` with two or more candidates.
pub open spec fn rr_count(calls: Seq<(Seq<char>, nat)>, service: Seq<char>) -> nat
    decreases calls.len(),
{
    if calls.len() == 0 {
        0
    } else {
        rr_count(calls.drop_last(), service) + if calls.last().0 == service && calls.last().1 >= 2 {
            1nat
        } else {
            0nat
        }
    }
}

/// One counter per service: after any history of calls on a fresh selector,
/// the counter of `service` is the number of its calls with two or more
/// candidates (wrapping at `usize::MAX`), whatever calls other services made
/// and whatever calls had one candidate or none. The next call for `service`
/// with `n >= 2` candidates picks that count modulo `n`.
pub proof fn law_round_robin_per_service(calls: Seq<(Seq<char>, nat)>, service: Seq<char>, n: nat)
    ensures
        crate::strmap::unique_keys(rr_run(Seq::empty(), calls)),
        counter_of(rr_run(Seq::empty(), calls), service) == rr_count(calls, service) % (usize::MAX as nat + 1),
        n >= 2 ==> rr_step(rr_run(Seq::empty(), calls), service, n).1 == Some(
            ((rr_count(calls, service) % (usize::MAX as nat + 1)) as int) % (n as int),
        ),
    decreases calls.len(),
{
    let m = usize::MAX as nat + 1;
    if calls.len() == 0 {
        let e = Seq::<(Seq<char>, usize)>::empty();
        assert(!crate::strmap::has_key(e, service));
        assert(0nat % m == 0) by (nonlinear_arith) requires m > 0;
    } else {
        let prev = calls.drop_last();
        law_round_robin_per_service(prev, service, n);
        let st = rr_run(Seq::empty(), prev);
        let (s2, m2) = calls.last();
        let k = rr_count(prev, service);
        if m2 >= 2 {
            let c = counter_of(st, s2);
            let next: usize = if c == usize::MAX { 0 } else { (c + 1) as usize };
            crate::strmap::lemma_upsert(st, s2, next);
            if s2 == service {
                assert(c == k % m);
                assert(next == (k + 1) % m) by (nonlinear_arith)
                    requires
                        m == usize::MAX as nat + 1,
                        c == k % m,
                        next == (if c == usize::MAX { 0 } else { c + 1 }),
                {
                    vstd::arithmetic::div_mod::lemma_add_mod_noop(k as int, 1, m as int);
                    vstd::arithmetic::div_mod::lemma_small_mod(1, m);
                    vstd::arithmetic::div_mod::lemma_mod_bound(k as int, m as int);
                    if c + 1 < m {
                        vstd::arithmetic::div_mod::lemma_small_mod((c + 1) as nat, m);
                    } else {
                        vstd::arithmetic::div_mod::lemma_mod_self_0(m as int);
                    }
                }
            }
        }
    }
}

impl Default for RoundRobinSelector {
    fn default() -> (r: Self)
        ensures
            r.counters_spec() == Seq::<(Seq<char>, usize)>::empty(),
    {
        RoundRobinSelector::new()
    }
}

} // verus!
