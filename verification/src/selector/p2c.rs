//! Power-of-two-choices selection by in-flight load and weight.
use vstd::prelude::*;
use crate::clock::now_nanos;
use crate::instance::{ServiceInstance, ServiceInstanceView, views};
use crate::strmap::{StrMap, upsert};
use super::{SelectContext, SelectContextView, Selector, opt_index};
use super::round_robin::counter_of;

verus! {

/// The weight a score divides by: the instance weight in hundredths, at least 10 (0.1).
pub open spec fn score_weight(inst: ServiceInstanceView) -> int {
    if inst.weight < 10 {
        10
    } else {
        inst.weight as int
    }
}

/// `a` is loaded no more than `b`: `(inflight_a + 1) / weight_a <= (inflight_b + 1) / weight_b`.
pub open spec fn score_le(
    inflight: Seq<(Seq<char>, usize)>,
    a: ServiceInstanceView,
    b: ServiceInstanceView,
) -> bool {
    (counter_of(inflight, a.service_id) + 1) * score_weight(b) <= (counter_of(inflight, b.service_id)
        + 1) * score_weight(a)
}

/// Two distinct candidate positions among `n >= 2`, derived from `seed`.
pub open spec fn pick_two_spec(n: nat, seed: usize) -> (int, int) {
    let first = (seed as int) % (n as int);
    let offset = 1 + ((seed as int) / (n as int)) % ((n - 1) as int);
    (first, (first + offset) % (n as int))
}

/// The state a P2C selector reads and writes: in-flight counts per instance
/// identifier, and a sequence counter mixed into the random seed.
pub struct P2CState {
    pub inflight: Seq<(Seq<char>, usize)>,
    pub seq: usize,
}

/// One selection with clock reading `now`.
pub open spec fn p2c_step(state: P2CState, instances: Seq<ServiceInstanceView>, now: usize) -> (
    P2CState,
    Option<int>,
) {
    let n = instances.len();
    if n == 0 {
        (state, None)
    } else if n == 1 {
        (state, Some(0))
    } else if n == 2 {
        (state, if score_le(state.inflight, instances[0], instances[1]) { Some(0) } else { Some(1) })
    } else {
        let seed = now.wrapping_add(state.seq);
        let (a, b) = pick_two_spec(n, seed);
        (
            P2CState { inflight: state.inflight, seq: state.seq.wrapping_add(1) },
            if score_le(state.inflight, instances[a], instances[b]) { Some(a) } else { Some(b) },
        )
    }
}

/// A claim on one in-flight slot of an instance; hand it back with
/// [`P2CSelector::release`] when the request completes.
#[derive(Debug)]
pub struct P2CGuard {
    service_id: String,
}

impl P2CGuard {
    /// The instance this guard holds a slot on.
    pub closed spec fn id_spec(&self) -> Seq<char> {
        self.service_id@
    }

    /// The instance this guard holds a slot on.
    pub fn service_id(&self) -> (r: &str)
        ensures
            r@ == self.id_spec(),
    {
        self.service_id.as_str()
    }
}

/// Power of two choices: compare two random candidates by
/// `(in-flight + 1) / weight` and take the lighter (ties go to the first).
#[derive(Debug)]
pub struct P2CSelector {
    inflight: StrMap<usize>,
    seed_counter: usize,
}

impl P2CSelector {
    /// In-flight counts and sequence counter.
    pub closed spec fn state_spec(&self) -> P2CState {
        P2CState { inflight: self.inflight@, seq: self.seed_counter }
    }

    /// Every selector keeps one in-flight count per instance identifier.
    pub proof fn lemma_inflight_unique(self)
        ensures
            crate::strmap::unique_keys(self.state_spec().inflight),
    {
        self.inflight.lemma_keys_unique();
    }

    /// A selector with no in-flight requests.
    pub fn new() -> (r: Self)
        ensures
            r.state_spec() == (P2CState { inflight: Seq::empty(), seq: 0 }),
    {
        P2CSelector { inflight: StrMap::new(), seed_counter: 0 }
    }

    /// The in-flight count of `service_id`; an instance seen for the first
    /// time gets a count of zero.
    pub fn get_inflight_counter(&mut self, service_id: &str) -> (r: usize)
        ensures
            r == counter_of(old(self).state_spec().inflight, service_id@),
            final(self).state_spec() == (P2CState {
                inflight: upsert(old(self).state_spec().inflight, service_id@, r),
                seq: old(self).state_spec().seq,
            }),
    {
        let c = match self.inflight.get(service_id) {
            Some(c) => *c,
            None => 0,
        };
        self.inflight.insert(service_id.to_string(), c);
        c
    }

    /// Takes one in-flight slot on `service_id` (the count wraps at the top).
    pub fn acquire(&mut self, service_id: &str) -> (g: P2CGuard)
        ensures
            g.id_spec() == service_id@,
            crate::strmap::unique_keys(old(self).state_spec().inflight),
            crate::strmap::unique_keys(final(self).state_spec().inflight),
            final(self).state_spec() == (P2CState {
                inflight: upsert(
                    old(self).state_spec().inflight,
                    service_id@,
                    counter_of(old(self).state_spec().inflight, service_id@).wrapping_add(1),
                ),
                seq: old(self).state_spec().seq,
            }),
    {
        proof {
            self.inflight.lemma_keys_unique();
        }
        let c = match self.inflight.get(service_id) {
            Some(c) => *c,
            None => 0,
        };
        self.inflight.insert(service_id.to_string(), c.wrapping_add(1));
        proof {
            self.inflight.lemma_keys_unique();
        }
        P2CGuard { service_id: service_id.to_string() }
    }

    /// Gives back the slot that `guard` holds (the count wraps at zero).
    pub fn release(&mut self, guard: P2CGuard)
        ensures
            crate::strmap::unique_keys(old(self).state_spec().inflight),
            crate::strmap::unique_keys(final(self).state_spec().inflight),
            final(self).state_spec() == (P2CState {
                inflight: upsert(
                    old(self).state_spec().inflight,
                    guard.id_spec(),
                    counter_of(old(self).state_spec().inflight, guard.id_spec()).wrapping_sub(1),
                ),
                seq: old(self).state_spec().seq,
            }),
    {
        proof {
            self.inflight.lemma_keys_unique();
        }
        let c = match self.inflight.get(guard.service_id.as_str()) {
            Some(c) => *c,
            None => 0,
        };
        self.inflight.insert(guard.service_id, c.wrapping_sub(1));
        proof {
            self.inflight.lemma_keys_unique();
        }
    }

    fn load(&self, inst: &ServiceInstance) -> (r: u128)
        ensures
            r == counter_of(self.state_spec().inflight, inst@.service_id) + 1,
    {
        match self.inflight.get(inst.service_id.as_str()) {
            Some(c) => *c as u128 + 1,
            None => 1,
        }
    }

    fn lighter_or_equal(&self, a: &ServiceInstance, b: &ServiceInstance) -> (r: bool)
        ensures
            r == score_le(self.state_spec().inflight, a@, b@),
    {
        let wa: u128 = if a.weight < 10 { 10 } else { a.weight as u128 };
        let wb: u128 = if b.weight < 10 { 10 } else { b.weight as u128 };
        let la = self.load(a);
        let lb = self.load(b);
        assert(la <= usize::MAX + 1);
        assert(lb <= usize::MAX + 1);
        assert(la * wb <= (usize::MAX + 1) * (u32::MAX as int)) by (nonlinear_arith)
            requires
                la <= usize::MAX + 1,
                wb <= u32::MAX,
        ;
        assert(lb * wa <= (usize::MAX + 1) * (u32::MAX as int)) by (nonlinear_arith)
            requires
                lb <= usize::MAX + 1,
                wa <= u32::MAX,
        ;
        la * wb <= lb * wa
    }

    /// Two distinct positions among `len >= 2` candidates, derived from `seed`.
    pub fn pick_two(len: usize, seed: usize) -> (r: (usize, usize))
        requires
            len >= 2,
        ensures
            (r.0 as int, r.1 as int) == pick_two_spec(len as nat, seed),
            r.0 < len,
            r.1 < len,
            r.0 != r.1,
    {
        let first = seed % len;
        let offset = 1 + (seed / len) % (len - 1);
        let second = if first >= len - offset {
            first - (len - offset)
        } else {
            first + offset
        };
        proof {
            let f = first as int;
            let o = offset as int;
            let n = len as int;
            assert(0 <= f < n);
            assert(1 <= o < n);
            if f >= n - o {
                assert((f + o) % n == f + o - n) by (nonlinear_arith)
                    requires
                        n <= f + o < 2 * n,
                ;
            } else {
                assert((f + o) % n == f + o) by (nonlinear_arith)
                    requires
                        0 <= f + o < n,
                ;
            }
        }
        (first, second)
    }

    /// One selection with a given clock reading.
    pub fn select_with_seed(&mut self, instances: &[ServiceInstance], now: usize) -> (r: Option<usize>)
        ensures
            (final(self).state_spec(), opt_index(r)) == p2c_step(
                old(self).state_spec(),
                views(instances@),
                now,
            ),
            r matches Some(i) ==> i < instances@.len(),
    {
        let len = instances.len();
        if len == 0 {
            return None;
        }
        if len == 1 {
            return Some(0);
        }
        if len == 2 {
            if self.lighter_or_equal(&instances[0], &instances[1]) {
                return Some(0);
            } else {
                return Some(1);
            }
        }
        let seq = self.seed_counter;
        self.seed_counter = seq.wrapping_add(1);
        let seed = now.wrapping_add(seq);
        let (a, b) = P2CSelector::pick_two(len, seed);
        let ghost st = old(self).state_spec();
        assert(self.inflight@ == st.inflight);
        if self.lighter_or_equal(&instances[a], &instances[b]) {
            Some(a)
        } else {
            Some(b)
        }
    }

    /// Picks an instance and takes an in-flight slot on it.
    pub fn select_with_guard<'a>(&mut self, ctx: &SelectContext, instances: &'a [ServiceInstance]) -> (r:
        Option<(&'a ServiceInstance, P2CGuard)>)
        ensures
            exists|mid: Self, p: Option<int>|
                #[trigger] Self::select_rel(*old(self), mid, ctx@, views(instances@), p) && match p {
                    Some(i) => 0 <= i < instances@.len() && r is Some && *(r->0).0 == instances@[i]
                        && (r->0).1.id_spec() == instances@[i].service_id@
                        && final(self).state_spec() == (P2CState {
                        inflight: upsert(
                            mid.state_spec().inflight,
                            instances@[i].service_id@,
                            counter_of(mid.state_spec().inflight, instances@[i].service_id@).wrapping_add(1),
                        ),
                        seq: mid.state_spec().seq,
                    }),
                    None => r is None && *final(self) == mid,
                },
    {
        let i = self.select_index(ctx, instances);
        let ghost mid = *self;
        match i {
            Some(i) => {
                let inst = &instances[i];
                let g = self.acquire(inst.service_id.as_str());
                assert(Self::select_rel(*old(self), mid, ctx@, views(instances@), opt_index(Some(i))));
                Some((inst, g))
            },
            None => {
                assert(Self::select_rel(*old(self), mid, ctx@, views(instances@), opt_index(i)));
                None
            },
        }
    }
}

impl Selector for P2CSelector {
    open spec fn select_rel(
        self,
        next: Self,
        ctx: SelectContextView,
        instances: Seq<ServiceInstanceView>,
        pick: Option<int>,
    ) -> bool {
        exists|now: usize| (next.state_spec(), pick) == #[trigger] p2c_step(self.state_spec(), instances, now)
    }

    fn select_index(&mut self, ctx: &SelectContext, instances: &[ServiceInstance]) -> (r: Option<usize>) {
        let now = now_nanos();
        let r = self.select_with_seed(instances, now);
        assert((self.state_spec(), opt_index(r)) == p2c_step(old(self).state_spec(), views(instances@), now));
        r
    }
}


/// On a selector, `acquire` followed by `release` of its guard leaves every
/// in-flight count and the sequence counter as they were. `before` is any
/// selector, `acquired` and `released` are the selector after each call, as
/// their contracts state them.
pub proof fn law_selector_release_undoes_acquire(
    before: P2CSelector,
    acquired: P2CSelector,
    released: P2CSelector,
    id: Seq<char>,
)
    requires
        acquired.state_spec() == (P2CState {
            inflight: upsert(
                before.state_spec().inflight,
                id,
                counter_of(before.state_spec().inflight, id).wrapping_add(1),
            ),
            seq: before.state_spec().seq,
        }),
        released.state_spec() == (P2CState {
            inflight: upsert(
                acquired.state_spec().inflight,
                id,
                counter_of(acquired.state_spec().inflight, id).wrapping_sub(1),
            ),
            seq: acquired.state_spec().seq,
        }),
    ensures
        released.state_spec().seq == before.state_spec().seq,
        forall|k: Seq<char>| #[trigger] counter_of(released.state_spec().inflight, k) == counter_of(
            before.state_spec().inflight,
            k,
        ),
{
    before.lemma_inflight_unique();
    law_release_undoes_acquire(before.state_spec().inflight, id);
}

/// Releasing a slot undoes acquiring it: every in-flight count is as before.
pub proof fn law_release_undoes_acquire(inflight: Seq<(Seq<char>, usize)>, id: Seq<char>)
    requires
        crate::strmap::unique_keys(inflight),
    ensures
        ({
            let acquired = upsert(inflight, id, counter_of(inflight, id).wrapping_add(1));
            let released = upsert(acquired, id, counter_of(acquired, id).wrapping_sub(1));
            forall|k: Seq<char>| #[trigger] counter_of(released, k) == counter_of(inflight, k)
        }),
{
    let c = counter_of(inflight, id);
    let acquired = upsert(inflight, id, c.wrapping_add(1));
    crate::strmap::lemma_upsert(inflight, id, c.wrapping_add(1));
    let released = upsert(acquired, id, counter_of(acquired, id).wrapping_sub(1));
    crate::strmap::lemma_upsert(acquired, id, counter_of(acquired, id).wrapping_sub(1));
    assert(c.wrapping_add(1).wrapping_sub(1) == c);
}

/// With two or more candidates, the two compared positions differ and are in range.
pub proof fn law_pick_two_distinct(n: nat, seed: usize)
    requires
        n >= 2,
    ensures
        0 <= pick_two_spec(n, seed).0 < n,
        0 <= pick_two_spec(n, seed).1 < n,
        pick_two_spec(n, seed).0 != pick_two_spec(n, seed).1,
{
    let f = (seed as int) % (n as int);
    let o = 1 + ((seed as int) / (n as int)) % ((n - 1) as int);
    let ni = n as int;
    assert(0 <= f < ni);
    assert(1 <= o < ni);
    assert((f + o) % ni != f && 0 <= (f + o) % ni < ni) by (nonlinear_arith)
        requires
            0 <= f < ni,
            1 <= o < ni,
    {
        if f + o < ni {
            assert((f + o) % ni == f + o) by (nonlinear_arith) requires 0 <= f + o < ni;
        } else {
            assert((f + o) % ni == f + o - ni) by (nonlinear_arith) requires ni <= f + o < 2 * ni;
        }
    }
}


impl Default for P2CSelector {
    fn default() -> (r: Self)
        ensures
            r.state_spec() == (P2CState { inflight: Seq::empty(), seq: 0 }),
    {
        P2CSelector::new()
    }
}


/// Power of two choices prefers the lower load per unit of weight: with two
/// or more candidates, the two compared positions are distinct and in range
/// (both candidates when there are exactly two), and the first of them, `a`,
/// is taken exactly when `(inflight(a) + 1) * max(weight(b), 10) <=
/// (inflight(b) + 1) * max(weight(a), 10)` (weights in hundredths), else the
/// second. So a candidate with three times the weight and one more request in
/// flight than the other is preferred.
pub proof fn law_p2c_prefers_lower_load_per_weight(state: P2CState, instances: Seq<ServiceInstanceView>, now: usize)
    requires
        instances.len() >= 2,
    ensures
        ({
            let n = instances.len();
            let (a, b) = if n == 2 {
                (0int, 1int)
            } else {
                pick_two_spec(n, now.wrapping_add(state.seq))
            };
            let la = counter_of(state.inflight, instances[a].service_id) + 1;
            let lb = counter_of(state.inflight, instances[b].service_id) + 1;
            let wa: int = if instances[a].weight < 10 { 10 } else { instances[a].weight as int };
            let wb: int = if instances[b].weight < 10 { 10 } else { instances[b].weight as int };
            &&& 0 <= a < n
            &&& 0 <= b < n
            &&& a != b
            &&& p2c_step(state, instances, now).1 == (if la * wb <= lb * wa { Some(a) } else { Some(b) })
        }),
{
    let n = instances.len();
    if n > 2 {
        law_pick_two_distinct(n, now.wrapping_add(state.seq));
    }
}

} // verus!
