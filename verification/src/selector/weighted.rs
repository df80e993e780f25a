//! Smooth weighted round-robin (the nginx algorithm).
use vstd::prelude::*;
use crate::instance::{ServiceInstance, ServiceInstanceView, views};
use crate::strmap::{StrMap, lookup, upsert, lemma_upsert, lemma_upsert_twice, unique_keys};
use super::{SelectContext, SelectContextView, Selector, opt_index};
use super::smooth::{
    add_seq, first_max, lemma_first_max, lemma_smooth_invariant, lemma_smooth_period, lemma_sum_ge,
    lemma_sum_remove, positive, seq_sum, smooth_count, smooth_pick, smooth_run, smooth_step, zeros,
};

verus! {

/// The smooth weight of an instance: its weight in hundredths, at least 100.
pub open spec fn wrr_weight(inst: ServiceInstanceView) -> i64 {
    if inst.weight < 100 {
        100
    } else {
        inst.weight as i64
    }
}

/// The current weight stored for `id`, 0 when none is.
pub open spec fn current_of(weights: Seq<(Seq<char>, i64)>, id: Seq<char>) -> i64 {
    match lookup(weights, id) {
        Some(c) => c,
        None => 0,
    }
}

/// The state of a pass over the first candidates: current weights, total
/// weight, and the first candidate whose current weight is the largest seen.
pub struct WrrScan {
    pub weights: Seq<(Seq<char>, i64)>,
    pub total: i64,
    pub best: Option<int>,
    pub max: i64,
}

/// A pass over the first `n` candidates: each one's current weight grows by its
/// smooth weight (64-bit, wrapping) and the first strictly largest is remembered.
pub open spec fn wrr_scan(start: Seq<(Seq<char>, i64)>, instances: Seq<ServiceInstanceView>, n: nat) -> WrrScan
    decreases n,
{
    if n == 0 {
        WrrScan { weights: start, total: 0, best: None, max: i64::MIN }
    } else {
        let prev = wrr_scan(start, instances, (n - 1) as nat);
        let inst = instances[n - 1];
        let w = wrr_weight(inst);
        let cur = current_of(prev.weights, inst.service_id).wrapping_add(w);
        WrrScan {
            weights: upsert(prev.weights, inst.service_id, cur),
            total: prev.total.wrapping_add(w),
            best: if cur > prev.max { Some(n - 1) } else { prev.best },
            max: if cur > prev.max { cur } else { prev.max },
        }
    }
}

/// One selection: with two or more candidates, scan them all, pick the best and
/// take the total weight off its current weight.
pub open spec fn wrr_step(
    state: Seq<(Seq<char>, Seq<(Seq<char>, i64)>)>,
    service: Seq<char>,
    instances: Seq<ServiceInstanceView>,
) -> (Seq<(Seq<char>, Seq<(Seq<char>, i64)>)>, Option<int>) {
    if instances.len() == 0 {
        (state, None)
    } else if instances.len() == 1 {
        (state, Some(0))
    } else {
        let start = match lookup(state, service) {
            Some(w) => w,
            None => Seq::empty(),
        };
        let scan = wrr_scan(start, instances, instances.len());
        match scan.best {
            Some(b) => {
                let id = instances[b].service_id;
                (
                    upsert(
                        state,
                        service,
                        upsert(scan.weights, id, current_of(scan.weights, id).wrapping_sub(scan.total)),
                    ),
                    Some(b),
                )
            },
            None => (upsert(state, service, scan.weights), Some(0)),
        }
    }
}

/// Smooth weighted round-robin: spreads picks in proportion to the weights
/// while interleaving them over time.
///
/// Current weights are 64-bit and wrap on overflow.
#[derive(Debug)]
pub struct WeightedRoundRobinSelector {
    state: StrMap<StrMap<i64>>,
}

impl WeightedRoundRobinSelector {
    /// A selector with no current weights yet.
    pub fn new() -> (r: Self)
        ensures
            r.state_spec() == Seq::<(Seq<char>, Seq<(Seq<char>, i64)>)>::empty(),
    {
        WeightedRoundRobinSelector { state: StrMap::new() }
    }

    /// Current weights per service, per instance identifier.
    pub closed spec fn state_spec(&self) -> Seq<(Seq<char>, Seq<(Seq<char>, i64)>)> {
        self.state@
    }

    /// Every selector keeps one entry per service name, and one current
    /// weight per instance identifier within it.
    pub proof fn lemma_state_unique(self)
        ensures
            unique_keys(self.state_spec()),
            forall|i: int| 0 <= i < self.state_spec().len() ==> unique_keys(#[trigger] self.state_spec()[i].1),
    {
        self.state.lemma_nested_keys_unique();
    }
}

fn smooth_weight(inst: &ServiceInstance) -> (w: i64)
    ensures
        w == wrr_weight(inst@),
{
    if inst.weight < 100 {
        100
    } else {
        inst.weight as i64
    }
}

impl Selector for WeightedRoundRobinSelector {
    open spec fn select_rel(
        self,
        next: Self,
        ctx: SelectContextView,
        instances: Seq<ServiceInstanceView>,
        pick: Option<int>,
    ) -> bool {
        (next.state_spec(), pick) == wrr_step(self.state_spec(), ctx.service_name, instances)
    }

    fn select_index(&mut self, ctx: &SelectContext, instances: &[ServiceInstance]) -> (r: Option<usize>) {
        let len = instances.len();
        if len == 0 {
            return None;
        }
        if len == 1 {
            return Some(0);
        }
        let ghost start = match lookup(self.state@, ctx.service_name@) {
            Some(w) => w,
            None => Seq::empty(),
        };
        let ghost s0 = self.state@;
        proof {
            self.state.lemma_keys_unique();
        }
        let taken = self.state.insert(ctx.service_name.clone(), StrMap::new());
        let mut weights = match taken {
            Some(w) => w,
            None => StrMap::new(),
        };
        assert(weights@ == start);
        let ghost s1 = self.state@;
        let mut total: i64 = 0;
        let mut best: Option<usize> = None;
        let mut max_current: i64 = i64::MIN;
        let mut i: usize = 0;
        while i < len
            invariant
                len == instances@.len(),
                0 <= i <= len,
                weights@ == wrr_scan(start, views(instances@), i as nat).weights,
                total == wrr_scan(start, views(instances@), i as nat).total,
                opt_index(best) == wrr_scan(start, views(instances@), i as nat).best,
                max_current == wrr_scan(start, views(instances@), i as nat).max,
                best matches Some(b) ==> b < i,
            decreases len - i,
        {
            let inst = &instances[i];
            let w = smooth_weight(inst);
            total = total.wrapping_add(w);
            let prev = match weights.get(inst.service_id.as_str()) {
                Some(c) => *c,
                None => 0,
            };
            let cur = prev.wrapping_add(w);
            weights.insert(inst.service_id.clone(), cur);
            if cur > max_current {
                max_current = cur;
                best = Some(i);
            }
            i = i + 1;
        }
        let pick = match best {
            Some(b) => {
                let id = &instances[b].service_id;
                let cur = match weights.get(id.as_str()) {
                    Some(c) => *c,
                    None => 0,
                };
                weights.insert(id.clone(), cur.wrapping_sub(total));
                b
            },
            None => 0,
        };
        let ghost wv = weights@;
        self.state.insert(ctx.service_name.clone(), weights);
        proof {
            lemma_upsert_twice(s0, ctx.service_name@, Seq::<(Seq<char>, i64)>::empty(), wv);
        }
        Some(pick)
    }
}


/// No two candidates share an identifier.
pub open spec fn distinct_ids(s: Seq<ServiceInstanceView>) -> bool {
    forall|i: int, j: int| 0 <= i < s.len() && 0 <= j < s.len() && i != j ==> #[trigger] s[i].service_id
        != #[trigger] s[j].service_id
}

/// A scan from no current weights over distinct candidates stores each
/// candidate's own weight and remembers the first heaviest.
proof fn lemma_scan_fresh(instances: Seq<ServiceInstanceView>, n: nat)
    requires
        distinct_ids(instances),
        n <= instances.len(),
    ensures
        ({
            let sc = wrr_scan(Seq::empty(), instances, n);
            &&& unique_keys(sc.weights)
            &&& forall|j: int| 0 <= j < n ==> #[trigger] lookup(sc.weights, instances[j].service_id) == Some(wrr_weight(instances[j]))
            &&& forall|k: Seq<char>| (forall|j: int| 0 <= j < n ==> #[trigger] instances[j].service_id != k) ==> lookup(sc.weights, k) is None
            &&& n == 0 ==> sc.best is None && sc.max == i64::MIN
            &&& n > 0 ==> (sc.best matches Some(b) && 0 <= b < n && sc.max == wrr_weight(instances[b])
                && (forall|j: int| 0 <= j < n ==> wrr_weight(#[trigger] instances[j]) <= sc.max)
                && (forall|j: int| 0 <= j < b ==> wrr_weight(#[trigger] instances[j]) < sc.max))
        }),
    decreases n,
{
    if n > 0 {
        let m = (n - 1) as nat;
        lemma_scan_fresh(instances, m);
        let prev = wrr_scan(Seq::empty(), instances, m);
        let inst = instances[m as int];
        let w = wrr_weight(inst);
        assert forall|j: int| 0 <= j < m implies #[trigger] instances[j].service_id != inst.service_id by {
            assert(j != m);
        }
        assert(lookup(prev.weights, inst.service_id) is None);
        assert(current_of(prev.weights, inst.service_id) == 0);
        assert(0i64.wrapping_add(w) == w);
        lemma_upsert(prev.weights, inst.service_id, w);
        let sc = wrr_scan(Seq::empty(), instances, n);
        assert forall|j: int| 0 <= j < n implies #[trigger] lookup(sc.weights, instances[j].service_id) == Some(wrr_weight(instances[j])) by {
            if j < m {
                assert(instances[j].service_id != inst.service_id);
            }
        }
    }
}

/// A fresh smooth weighted round-robin over distinct candidates first picks
/// the first of the heaviest.
pub proof fn law_wrr_fresh_picks_heaviest(
    state: Seq<(Seq<char>, Seq<(Seq<char>, i64)>)>,
    service: Seq<char>,
    instances: Seq<ServiceInstanceView>,
)
    requires
        instances.len() >= 2,
        distinct_ids(instances),
        lookup(state, service) is None,
    ensures
        wrr_step(state, service, instances).1 matches Some(b) && 0 <= b < instances.len()
            && (forall|j: int| 0 <= j < instances.len() ==> wrr_weight(#[trigger] instances[j]) <= wrr_weight(instances[b]))
            && (forall|j: int| 0 <= j < b ==> wrr_weight(#[trigger] instances[j]) < wrr_weight(instances[b])),
{
    lemma_scan_fresh(instances, instances.len());
}


/// The smooth weights of the candidates, as integers.
pub open spec fn wrr_weights(instances: Seq<ServiceInstanceView>) -> Seq<int> {
    Seq::new(instances.len(), |i: int| wrr_weight(instances[i]) as int)
}

/// The total smooth weight of the candidates.
pub open spec fn wrr_total(instances: Seq<ServiceInstanceView>) -> int {
    seq_sum(wrr_weights(instances))
}

/// The current weights that `service` holds for each candidate.
pub open spec fn wrr_currents(
    state: Seq<(Seq<char>, Seq<(Seq<char>, i64)>)>,
    service: Seq<char>,
    instances: Seq<ServiceInstanceView>,
) -> Seq<int> {
    let m = match lookup(state, service) {
        Some(w) => w,
        None => Seq::empty(),
    };
    Seq::new(instances.len(), |i: int| current_of(m, instances[i].service_id) as int)
}

/// The state after `t` selections for `service` among the same candidates.
pub open spec fn wrr_run(
    state: Seq<(Seq<char>, Seq<(Seq<char>, i64)>)>,
    service: Seq<char>,
    instances: Seq<ServiceInstanceView>,
    t: nat,
) -> Seq<(Seq<char>, Seq<(Seq<char>, i64)>)>
    decreases t,
{
    if t == 0 {
        state
    } else {
        wrr_step(wrr_run(state, service, instances, (t - 1) as nat), service, instances).0
    }
}

/// The pick of selection `t` (counting from 0) for `service` among the same candidates.
pub open spec fn wrr_pick_at(
    state: Seq<(Seq<char>, Seq<(Seq<char>, i64)>)>,
    service: Seq<char>,
    instances: Seq<ServiceInstanceView>,
    t: nat,
) -> Option<int> {
    wrr_step(wrr_run(state, service, instances, t), service, instances).1
}

/// How often candidate `i` is picked by the first `t` selections.
pub open spec fn wrr_picks(
    state: Seq<(Seq<char>, Seq<(Seq<char>, i64)>)>,
    service: Seq<char>,
    instances: Seq<ServiceInstanceView>,
    t: nat,
    i: int,
) -> nat
    decreases t,
{
    if t == 0 {
        0
    } else {
        wrr_picks(state, service, instances, (t - 1) as nat, i) + if wrr_pick_at(
            state,
            service,
            instances,
            (t - 1) as nat,
        ) == Some(i) {
            1nat
        } else {
            0nat
        }
    }
}

/// A scan over the first `k` candidates adds each one's weight to its current
/// weight, sums the weights, and finds the first of the largest sums.
proof fn lemma_scan_smooth(start: Seq<(Seq<char>, i64)>, instances: Seq<ServiceInstanceView>, c: Seq<int>, k: nat)
    requires
        k <= instances.len(),
        distinct_ids(instances),
        unique_keys(start),
        c.len() == instances.len(),
        forall|j: int| 0 <= j < instances.len() ==> #[trigger] c[j] == current_of(start, instances[j].service_id) as int,
        forall|j: int| 0 <= j < instances.len() ==> i64::MIN < #[trigger] add_seq(c, wrr_weights(instances))[j] <= i64::MAX,
        wrr_total(instances) <= i64::MAX,
    ensures
        ({
            let sc = wrr_scan(start, instances, k);
            let c1 = add_seq(c, wrr_weights(instances));
            &&& unique_keys(sc.weights)
            &&& forall|j: int| 0 <= j < k ==> #[trigger] current_of(sc.weights, instances[j].service_id) == c1[j]
            &&& forall|j: int| k <= j < instances.len() ==> #[trigger] current_of(sc.weights, instances[j].service_id) == c[j]
            &&& sc.total == seq_sum(wrr_weights(instances).take(k as int))
            &&& sc.best == first_max(c1, k).0
            &&& sc.max == first_max(c1, k).1
        }),
    decreases k,
{
    let w = wrr_weights(instances);
    let c1 = add_seq(c, w);
    if k > 0 {
        let m = (k - 1) as nat;
        lemma_scan_smooth(start, instances, c, m);
        let prev = wrr_scan(start, instances, m);
        let inst = instances[m as int];
        let ww = wrr_weight(inst);
        assert(current_of(prev.weights, inst.service_id) == c[m as int]);
        assert(c1[m as int] == c[m as int] + w[m as int]);
        let cur = current_of(prev.weights, inst.service_id).wrapping_add(ww);
        assert(cur == c1[m as int]);
        lemma_upsert(prev.weights, inst.service_id, cur);
        let sc = wrr_scan(start, instances, k);
        assert forall|j: int| 0 <= j < instances.len() && j != m implies #[trigger] current_of(
            sc.weights,
            instances[j].service_id,
        ) == current_of(prev.weights, instances[j].service_id) by {
            assert(instances[j].service_id != inst.service_id);
        }
        assert(w.take(k as int).drop_last() =~= w.take(m as int));
        assert(w.take(k as int).last() == w[m as int]);
        assert(seq_sum(w.take(k as int)) >= 0 && seq_sum(w.take(k as int)) <= seq_sum(w)) by {
            lemma_prefix_sum_bounds(w, k as int);
        }
        assert(prev.total == seq_sum(w.take(m as int)));
        assert(sc.total == seq_sum(w.take(k as int)));
    }
}

/// Prefix sums of positive weights lie between zero and the total.
proof fn lemma_prefix_sum_bounds(w: Seq<int>, k: int)
    requires
        0 <= k <= w.len(),
        forall|j: int| 0 <= j < w.len() ==> #[trigger] w[j] >= 1,
    ensures
        0 <= seq_sum(w.take(k)) <= seq_sum(w),
    decreases w.len() - k,
{
    if k < w.len() {
        lemma_prefix_sum_bounds(w, k + 1);
        assert(w.take(k + 1).drop_last() =~= w.take(k));
    } else {
        assert(w.take(k) =~= w);
    }
    if k > 0 {
        lemma_prefix_sum_bounds_low(w, k);
    }
}

proof fn lemma_prefix_sum_bounds_low(w: Seq<int>, k: int)
    requires
        0 <= k <= w.len(),
        forall|j: int| 0 <= j < w.len() ==> #[trigger] w[j] >= 1,
    ensures
        0 <= seq_sum(w.take(k)),
    decreases k,
{
    if k > 0 {
        lemma_prefix_sum_bounds_low(w, k - 1);
        assert(w.take(k).drop_last() =~= w.take(k - 1));
    }
}

/// One selection, read through the current weights: it is the smooth step.
proof fn lemma_wrr_step_smooth(
    state: Seq<(Seq<char>, Seq<(Seq<char>, i64)>)>,
    service: Seq<char>,
    instances: Seq<ServiceInstanceView>,
)
    requires
        instances.len() >= 2,
        distinct_ids(instances),
        unique_keys(state),
        lookup(state, service) matches Some(m) ==> unique_keys(m),
        wrr_total(instances) <= i64::MAX,
        forall|j: int| 0 <= j < instances.len() ==> i64::MIN < #[trigger] add_seq(
            wrr_currents(state, service, instances),
            wrr_weights(instances),
        )[j] <= i64::MAX,
        add_seq(wrr_currents(state, service, instances), wrr_weights(instances))[smooth_step(
            wrr_currents(state, service, instances),
            wrr_weights(instances),
        ).1] - wrr_total(instances) >= i64::MIN,
    ensures
        ({
            let (next, pick) = wrr_step(state, service, instances);
            let (c2, b) = smooth_step(wrr_currents(state, service, instances), wrr_weights(instances));
            &&& pick == Some(b)
            &&& unique_keys(next)
            &&& lookup(next, service) matches Some(m) && unique_keys(m)
            &&& wrr_currents(next, service, instances) == c2
        }),
{
    let n = instances.len();
    let w = wrr_weights(instances);
    let c = wrr_currents(state, service, instances);
    let c1 = add_seq(c, w);
    let start = match lookup(state, service) {
        Some(m) => m,
        None => Seq::empty(),
    };
    lemma_scan_smooth(start, instances, c, n);
    let sc = wrr_scan(start, instances, n);
    assert(w.take(n as int) =~= w);
    lemma_first_max(c1, n);
    let b = first_max(c1, n).0->0;
    let id = instances[b].service_id;
    let total = seq_sum(w);
    assert(positive(w));
    assert(total >= n) by {
        lemma_sum_ge(w, 1);
    }
    assert(sc.total == total);
    assert(current_of(sc.weights, id) == c1[b]);
    let newcur = current_of(sc.weights, id).wrapping_sub(sc.total);
    assert(newcur == c1[b] - total);
    let m2 = upsert(sc.weights, id, newcur);
    lemma_upsert(sc.weights, id, newcur);
    lemma_upsert(state, service, m2);
    let next = wrr_step(state, service, instances).0;
    assert(lookup(next, service) == Some(m2));
    let c2 = smooth_step(c, w).0;
    assert(wrr_currents(next, service, instances) =~= c2) by {
        assert(smooth_step(c, w).1 == b);
        assert(c2 == c1.update(b, c1[b] - total));
        assert forall|j: int| 0 <= j < n implies #[trigger] wrr_currents(next, service, instances)[j] == c2[j] by {
            assert(wrr_currents(next, service, instances)[j] == current_of(m2, instances[j].service_id) as int);
            if j != b {
                assert(instances[j].service_id != id);
                assert(lookup(m2, instances[j].service_id) == lookup(sc.weights, instances[j].service_id));
                assert(current_of(sc.weights, instances[j].service_id) == c1[j]);
            } else {
                assert(lookup(m2, id) == Some(newcur));
            }
        }
    }
}

/// Along the smooth steps, adding the weights and then taking off the total
/// stays within 64 bits.
proof fn lemma_smooth_bounds(w: Seq<int>, t: nat)
    requires
        w.len() >= 2,
        positive(w),
        w.len() * seq_sum(w) <= i64::MAX,
    ensures
        forall|j: int| 0 <= j < w.len() ==> i64::MIN < #[trigger] add_seq(smooth_run(w, t), w)[j] <= i64::MAX
            && add_seq(smooth_run(w, t), w)[j] - seq_sum(w) >= i64::MIN,
        seq_sum(w) <= i64::MAX,
{
    let n = w.len();
    let total = seq_sum(w);
    assert(total >= n) by {
        lemma_sum_ge(w, 1);
    }
    assert(n * total >= 2 * total) by (nonlinear_arith)
        requires
            n >= 2,
            total >= 0,
    ;
    let c = smooth_run(w, t);
    lemma_smooth_invariant(w, t);
    assert forall|j: int| 0 <= j < n implies i64::MIN < #[trigger] add_seq(c, w)[j] <= i64::MAX && add_seq(c, w)[j]
        - total >= i64::MIN by {
        lemma_sum_remove(c, j);
        let rest = c.remove(j);
        assert forall|k: int| 0 <= k < rest.len() implies #[trigger] rest[k] >= -total by {
            if k < j {
                assert(rest[k] == c[k]);
            } else {
                assert(rest[k] == c[k + 1]);
            }
        }
        lemma_sum_ge(rest, -total);
        lemma_sum_remove(w, j);
        let wrest = w.remove(j);
        assert forall|k: int| 0 <= k < wrest.len() implies #[trigger] wrest[k] >= 1 by {
            if k < j {
                assert(wrest[k] == w[k]);
            } else {
                assert(wrest[k] == w[k + 1]);
            }
        }
        lemma_sum_ge(wrest, 1);
        assert(rest.len() * (-total) == -((n - 1) * total)) by (nonlinear_arith)
            requires
                rest.len() == n - 1,
        ;
        assert(wrest.len() * 1 >= 0) by (nonlinear_arith);
        assert((n - 1) * total + total == n * total) by (nonlinear_arith);
    }
}

/// No current weight leaves 64 bits in the first `t + 1` selections for
/// these candidates: each sum of a current weight and a weight fits in `i64`.
pub open spec fn wrr_fits(instances: Seq<ServiceInstanceView>, t: nat) -> bool {
    forall|s: nat, j: int|
        s <= t && 0 <= j < instances.len() ==> #[trigger] add_seq(
            smooth_run(wrr_weights(instances), s),
            wrr_weights(instances),
        )[j] <= i64::MAX
}

/// When the number of candidates times the total weight fits in `i64`, no
/// current weight ever leaves 64 bits.
pub proof fn lemma_wrr_fits_when_small(instances: Seq<ServiceInstanceView>, t: nat)
    requires
        instances.len() >= 2,
        instances.len() * wrr_total(instances) <= i64::MAX,
    ensures
        wrr_fits(instances, t),
{
    let w = wrr_weights(instances);
    assert(positive(w));
    assert forall|s: nat, j: int| s <= t && 0 <= j < instances.len() implies #[trigger] add_seq(
        smooth_run(w, s),
        w,
    )[j] <= i64::MAX by {
        lemma_smooth_bounds(w, s);
    }
}

/// Successive selections of a fresh selector for one service among fixed
/// distinct candidates follow the smooth steps of their weights.
proof fn lemma_wrr_run_smooth(service: Seq<char>, instances: Seq<ServiceInstanceView>, t: nat)
    requires
        instances.len() >= 2,
        distinct_ids(instances),
        wrr_total(instances) <= i64::MAX,
        wrr_fits(instances, t),
    ensures
        ({
            let st = wrr_run(Seq::empty(), service, instances, t);
            &&& unique_keys(st)
            &&& lookup(st, service) matches Some(m) ==> unique_keys(m)
            &&& wrr_currents(st, service, instances) == smooth_run(wrr_weights(instances), t)
            &&& wrr_pick_at(Seq::empty(), service, instances, t) == Some(smooth_pick(wrr_weights(instances), t))
            &&& forall|i: int| #[trigger] wrr_picks(Seq::empty(), service, instances, t, i) == smooth_count(
                wrr_weights(instances),
                t,
                i,
            )
        }),
    decreases t,
{
    let n = instances.len();
    let w = wrr_weights(instances);
    assert(positive(w));
    let e = Seq::<(Seq<char>, Seq<(Seq<char>, i64)>)>::empty();
    if t == 0 {
        assert(!crate::strmap::has_key(e, service));
        assert(wrr_currents(e, service, instances) =~= zeros(n));
    } else {
        let p = (t - 1) as nat;
        lemma_wrr_run_smooth(service, instances, p);
        lemma_step_bounds(instances, p);
        lemma_wrr_step_smooth(wrr_run(e, service, instances, p), service, instances);
        assert forall|i: int| #[trigger] wrr_picks(e, service, instances, t, i) == smooth_count(w, t, i) by {
            assert(wrr_picks(e, service, instances, p, i) == smooth_count(w, p, i));
        }
    }
    lemma_step_bounds(instances, t);
    assert(wrr_currents(wrr_run(e, service, instances, t), service, instances) == smooth_run(w, t));
    lemma_wrr_step_smooth(wrr_run(e, service, instances, t), service, instances);
}

/// The bounds one smooth step needs, at step `s` of a run that fits.
proof fn lemma_step_bounds(instances: Seq<ServiceInstanceView>, s: nat)
    requires
        instances.len() >= 2,
        wrr_total(instances) <= i64::MAX,
        wrr_fits(instances, s),
    ensures
        forall|j: int| 0 <= j < instances.len() ==> i64::MIN < #[trigger] add_seq(
            smooth_run(wrr_weights(instances), s),
            wrr_weights(instances),
        )[j] <= i64::MAX,
        add_seq(smooth_run(wrr_weights(instances), s), wrr_weights(instances))[smooth_step(
            smooth_run(wrr_weights(instances), s),
            wrr_weights(instances),
        ).1] - wrr_total(instances) >= i64::MIN,
{
    let w = wrr_weights(instances);
    assert(positive(w));
    lemma_smooth_invariant(w, s);
    assert forall|j: int| 0 <= j < instances.len() implies i64::MIN < #[trigger] add_seq(smooth_run(w, s), w)[j]
        <= i64::MAX by {
        assert(add_seq(smooth_run(w, s), w)[j] <= i64::MAX);
    }
}

/// A run that fits for one period fits for ever: the weights repeat.
proof fn lemma_fits_forever(instances: Seq<ServiceInstanceView>, period: nat, t: nat)
    requires
        period >= 1,
        wrr_fits(instances, period),
        forall|s: nat| #[trigger] smooth_run(wrr_weights(instances), period + s) == smooth_run(wrr_weights(instances), s),
    ensures
        wrr_fits(instances, t),
    decreases t,
{
    let w = wrr_weights(instances);
    if t > period {
        lemma_fits_forever(instances, period, (t - 1) as nat);
        let k = (t - period) as nat;
        assert(smooth_run(w, period + k) == smooth_run(w, k));
        assert(period + k == t);
        assert forall|s: nat, j: int| s <= t && 0 <= j < instances.len() implies #[trigger] add_seq(
            smooth_run(w, s),
            w,
        )[j] <= i64::MAX by {
            if s == t {
                assert(add_seq(smooth_run(w, k), w)[j] <= i64::MAX);
            }
        }
    }
}

/// Smooth weighted round-robin is periodic. For a fresh selector, one service
/// and fixed distinct candidates whose smooth weights (in hundredths, at
/// least 100) are all multiples of `d`: the first `total / d` selections pick
/// each candidate exactly `weight / d` times, and the picks then repeat with
/// that period. Taking `d` as the weights' greatest common divisor gives the
/// shortest such block. It holds wherever the total and the current weights
/// fit in 64 bits (`wrr_fits`; `lemma_wrr_fits_when_small` gives a simple
/// sufficient bound).
pub proof fn law_wrr_period(service: Seq<char>, instances: Seq<ServiceInstanceView>, d: int)
    requires
        instances.len() >= 2,
        distinct_ids(instances),
        d >= 1,
        forall|i: int| 0 <= i < instances.len() ==> #[trigger] (wrr_weight(instances[i]) as int % d) == 0,
        wrr_total(instances) <= i64::MAX,
        wrr_fits(instances, (wrr_total(instances) / d) as nat),
    ensures
        wrr_total(instances) % d == 0,
        forall|i: int|
            0 <= i < instances.len() ==> #[trigger] wrr_picks(
                Seq::empty(),
                service,
                instances,
                (wrr_total(instances) / d) as nat,
                i,
            ) == wrr_weight(instances[i]) as int / d,
        forall|t: nat|
            #[trigger] wrr_pick_at(Seq::empty(), service, instances, (wrr_total(instances) / d) as nat + t)
                == wrr_pick_at(Seq::empty(), service, instances, t),
{
    let n = instances.len();
    let w = wrr_weights(instances);
    let total = seq_sum(w);
    assert(total >= n) by {
        lemma_sum_ge(w, 1);
    }
    assert forall|i: int| 0 <= i < n implies #[trigger] (w[i] % d) == 0 by {
        assert(w[i] == wrr_weight(instances[i]) as int);
    }
    lemma_smooth_period(w, d);
    let period = (total / d) as nat;
    assert(period >= 1) by {
        assert(total / d >= 1) by (nonlinear_arith)
            requires
                total % d == 0,
                total >= 2,
                d >= 1,
        {
            vstd::arithmetic::div_mod::lemma_fundamental_div_mod(total, d);
        }
    }
    assert forall|i: int| 0 <= i < n implies #[trigger] wrr_picks(Seq::empty(), service, instances, period, i)
        == wrr_weight(instances[i]) as int / d by {
        lemma_wrr_run_smooth(service, instances, period);
        assert(smooth_count(w, period, i) == w[i] / d);
    }
    assert forall|t: nat| #[trigger] wrr_pick_at(Seq::empty(), service, instances, period + t) == wrr_pick_at(
        Seq::empty(),
        service,
        instances,
        t,
    ) by {
        lemma_fits_forever(instances, period, period + t);
        lemma_fits_forever(instances, period, t);
        lemma_wrr_run_smooth(service, instances, period + t);
        lemma_wrr_run_smooth(service, instances, t);
        assert(smooth_pick(w, period + t) == smooth_pick(w, t));
    }
}

/// Selections follow the weights in hundredths, floored at 100 (1.0): for a
/// fresh selector, one service and fixed distinct candidates whose
/// `max(weight, 100)` are all multiples of `d`, the first `total / d`
/// selections pick each candidate exactly `max(weight, 100) / d` times, and
/// the picks then repeat. So weights 150 and 100 (1.5 and 1.0) give 3 and 2
/// picks in every 5; weights below 100, 0 included, count as 100.
pub proof fn law_wrr_picks_follow_weights(service: Seq<char>, instances: Seq<ServiceInstanceView>, d: int)
    requires
        instances.len() >= 2,
        distinct_ids(instances),
        d >= 1,
        forall|i: int|
            0 <= i < instances.len() ==> ((if (#[trigger] instances[i]).weight < 100 {
                100int
            } else {
                instances[i].weight as int
            }) % d) == 0,
        wrr_total(instances) <= i64::MAX,
        wrr_fits(instances, (wrr_total(instances) / d) as nat),
    ensures
        forall|i: int|
            0 <= i < instances.len() ==> #[trigger] wrr_picks(
                Seq::empty(),
                service,
                instances,
                (wrr_total(instances) / d) as nat,
                i,
            ) == (if instances[i].weight < 100 {
                100int
            } else {
                instances[i].weight as int
            }) / d,
        forall|t: nat|
            #[trigger] wrr_pick_at(Seq::empty(), service, instances, (wrr_total(instances) / d) as nat + t)
                == wrr_pick_at(Seq::empty(), service, instances, t),
{
    assert forall|i: int| 0 <= i < instances.len() implies #[trigger] (wrr_weight(instances[i]) as int % d) == 0 by {
        assert(((if instances[i].weight < 100 { 100int } else { instances[i].weight as int }) % d) == 0);
    }
    law_wrr_period(service, instances, d);
}

impl Default for WeightedRoundRobinSelector {
    fn default() -> (r: Self)
        ensures
            r.state_spec() == Seq::<(Seq<char>, Seq<(Seq<char>, i64)>)>::empty(),
    {
        WeightedRoundRobinSelector::new()
    }
}

} // verus!
