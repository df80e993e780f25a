//! The arithmetic of smooth weighted round-robin over a fixed list of
//! candidates: current weights as integers, and why each candidate is picked
//! exactly its weight's share of every period.
use vstd::prelude::*;

verus! {

/// The sum of a sequence of integers.
pub open spec fn seq_sum(s: Seq<int>) -> int
    decreases s.len(),
{
    if s.len() == 0 {
        0
    } else {
        seq_sum(s.drop_last()) + s.last()
    }
}

/// A pass over the first `k` values remembering the first strictly largest,
/// starting from the smallest 64-bit value: `(position, value)`.
pub open spec fn first_max(v: Seq<int>, k: nat) -> (Option<int>, int)
    decreases k,
{
    if k == 0 {
        (None, i64::MIN as int)
    } else {
        let (b, m) = first_max(v, (k - 1) as nat);
        if v[k - 1] > m {
            (Some(k - 1), v[k - 1])
        } else {
            (b, m)
        }
    }
}

/// Pointwise sum.
pub open spec fn add_seq(c: Seq<int>, w: Seq<int>) -> Seq<int> {
    Seq::new(c.len(), |i: int| c[i] + w[i])
}

/// Every value multiplied by `d`.
pub open spec fn scale(c: Seq<int>, d: int) -> Seq<int> {
    Seq::new(c.len(), |i: int| c[i] * d)
}

/// `n` zeros.
pub open spec fn zeros(n: nat) -> Seq<int> {
    Seq::new(n, |i: int| 0int)
}

/// One smooth step: every current weight grows by its weight, the first of
/// the largest is picked and loses the total weight.
pub open spec fn smooth_step(c: Seq<int>, w: Seq<int>) -> (Seq<int>, int) {
    let c1 = add_seq(c, w);
    let b = match first_max(c1, c1.len()).0 {
        Some(b) => b,
        None => 0,
    };
    (c1.update(b, c1[b] - seq_sum(w)), b)
}

/// The current weights after `t` steps from all zeros.
pub open spec fn smooth_run(w: Seq<int>, t: nat) -> Seq<int>
    decreases t,
{
    if t == 0 {
        zeros(w.len())
    } else {
        smooth_step(smooth_run(w, (t - 1) as nat), w).0
    }
}

/// The position picked by step `t` (counting from 0).
pub open spec fn smooth_pick(w: Seq<int>, t: nat) -> int {
    smooth_step(smooth_run(w, t), w).1
}

/// How often position `i` is picked in the first `t` steps.
pub open spec fn smooth_count(w: Seq<int>, t: nat, i: int) -> nat
    decreases t,
{
    if t == 0 {
        0
    } else {
        smooth_count(w, (t - 1) as nat, i) + if smooth_pick(w, (t - 1) as nat) == i {
            1nat
        } else {
            0nat
        }
    }
}

/// All weights are positive.
pub open spec fn positive(w: Seq<int>) -> bool {
    forall|i: int| 0 <= i < w.len() ==> #[trigger] w[i] >= 1
}

/// The pass finds the first of the largest values, when all exceed the start.
pub proof fn lemma_first_max(v: Seq<int>, k: nat)
    requires
        k <= v.len(),
        forall|j: int| 0 <= j < k ==> #[trigger] v[j] > i64::MIN,
    ensures
        k == 0 ==> first_max(v, k).0 is None,
        k >= 1 ==> (first_max(v, k).0 matches Some(b) && 0 <= b < k && first_max(v, k).1 == v[b] && (forall|j: int|
            0 <= j < k ==> #[trigger] v[j] <= v[b]) && (forall|j: int| 0 <= j < b ==> #[trigger] v[j] < v[b])),
    decreases k,
{
    if k > 0 {
        lemma_first_max(v, (k - 1) as nat);
    }
}

/// Only one position is the first of the largest.
pub proof fn lemma_first_of_largest_unique(v: Seq<int>, b1: int, b2: int)
    requires
        0 <= b1 < v.len(),
        0 <= b2 < v.len(),
        forall|j: int| 0 <= j < v.len() ==> #[trigger] v[j] <= v[b1],
        forall|j: int| 0 <= j < b1 ==> #[trigger] v[j] < v[b1],
        forall|j: int| 0 <= j < v.len() ==> #[trigger] v[j] <= v[b2],
        forall|j: int| 0 <= j < b2 ==> #[trigger] v[j] < v[b2],
    ensures
        b1 == b2,
{
    if b1 < b2 {
        assert(v[b1] < v[b2]);
        assert(v[b2] <= v[b1]);
    } else if b2 < b1 {
        assert(v[b2] < v[b1]);
        assert(v[b1] <= v[b2]);
    }
}

pub proof fn lemma_sum_add(c: Seq<int>, w: Seq<int>)
    requires
        c.len() == w.len(),
    ensures
        seq_sum(add_seq(c, w)) == seq_sum(c) + seq_sum(w),
    decreases c.len(),
{
    if c.len() > 0 {
        let n = c.len() - 1;
        lemma_sum_add(c.drop_last(), w.drop_last());
        assert(add_seq(c, w).drop_last() =~= add_seq(c.drop_last(), w.drop_last()));
    }
}

pub proof fn lemma_sum_update(s: Seq<int>, i: int, x: int)
    requires
        0 <= i < s.len(),
    ensures
        seq_sum(s.update(i, x)) == seq_sum(s) - s[i] + x,
    decreases s.len(),
{
    if i < s.len() - 1 {
        lemma_sum_update(s.drop_last(), i, x);
        assert(s.update(i, x).drop_last() =~= s.drop_last().update(i, x));
    } else {
        assert(s.update(i, x).drop_last() =~= s.drop_last());
    }
}

pub proof fn lemma_sum_zeros(n: nat)
    ensures
        seq_sum(zeros(n)) == 0,
    decreases n,
{
    if n > 0 {
        lemma_sum_zeros((n - 1) as nat);
        assert(zeros(n).drop_last() =~= zeros((n - 1) as nat));
    }
}

pub proof fn lemma_sum_scale(s: Seq<int>, d: int)
    ensures
        seq_sum(scale(s, d)) == seq_sum(s) * d,
    decreases s.len(),
{
    if s.len() > 0 {
        lemma_sum_scale(s.drop_last(), d);
        assert(scale(s, d).drop_last() =~= scale(s.drop_last(), d));
        assert(seq_sum(s) * d == seq_sum(s.drop_last()) * d + s.last() * d) by (nonlinear_arith)
            requires
                seq_sum(s) == seq_sum(s.drop_last()) + s.last(),
        ;
    }
}

/// A sum is at most the length times an upper bound.
pub proof fn lemma_sum_le(s: Seq<int>, m: int)
    requires
        forall|j: int| 0 <= j < s.len() ==> #[trigger] s[j] <= m,
    ensures
        seq_sum(s) <= s.len() * m,
    decreases s.len(),
{
    if s.len() > 0 {
        lemma_sum_le(s.drop_last(), m);
        assert(s.len() * m == (s.len() - 1) * m + m) by (nonlinear_arith);
    }
}

/// A sum is at least the length times a lower bound.
pub proof fn lemma_sum_ge(s: Seq<int>, m: int)
    requires
        forall|j: int| 0 <= j < s.len() ==> #[trigger] s[j] >= m,
    ensures
        seq_sum(s) >= s.len() * m,
    decreases s.len(),
{
    if s.len() > 0 {
        lemma_sum_ge(s.drop_last(), m);
        assert(s.len() * m == (s.len() - 1) * m + m) by (nonlinear_arith);
    }
}

/// A sum is one element plus the sum of the others.
pub proof fn lemma_sum_remove(s: Seq<int>, i: int)
    requires
        0 <= i < s.len(),
    ensures
        seq_sum(s) == s[i] + seq_sum(s.remove(i)),
    decreases s.len(),
{
    if i < s.len() - 1 {
        lemma_sum_remove(s.drop_last(), i);
        assert(s.remove(i).drop_last() =~= s.drop_last().remove(i));
    } else {
        assert(s.remove(i) =~= s.drop_last());
    }
}

/// With element-wise `a <= b` and equal sums, `a == b`.
pub proof fn lemma_le_equal_sums(a: Seq<int>, b: Seq<int>)
    requires
        a.len() == b.len(),
        forall|i: int| 0 <= i < a.len() ==> #[trigger] a[i] <= b[i],
        seq_sum(a) == seq_sum(b),
    ensures
        a == b,
    decreases a.len(),
{
    if a.len() > 0 {
        let a1 = a.drop_last();
        let b1 = b.drop_last();
        assert(seq_sum(a1) <= seq_sum(b1)) by {
            lemma_sum_le_pointwise(a1, b1);
        }
        lemma_le_equal_sums(a1, b1);
        assert(a =~= b) by {
            assert forall|i: int| 0 <= i < a.len() implies a[i] == b[i] by {
                if i < a.len() - 1 {
                    assert(a1[i] == b1[i]);
                }
            }
        }
    }
}

pub proof fn lemma_sum_le_pointwise(a: Seq<int>, b: Seq<int>)
    requires
        a.len() == b.len(),
        forall|i: int| 0 <= i < a.len() ==> #[trigger] a[i] <= b[i],
    ensures
        seq_sum(a) <= seq_sum(b),
    decreases a.len(),
{
    if a.len() > 0 {
        lemma_sum_le_pointwise(a.drop_last(), b.drop_last());
    }
}

/// The counts of all positions after `t` steps.
pub open spec fn counts(w: Seq<int>, t: nat) -> Seq<int> {
    Seq::new(w.len(), |i: int| smooth_count(w, t, i) as int)
}

/// What holds after every step: the current weights sum to zero, each stays
/// above minus the total, and each is `t` times its weight less the total for
/// every pick of it; the counts sum to `t`.
pub proof fn lemma_smooth_invariant(w: Seq<int>, t: nat)
    requires
        w.len() >= 1,
        positive(w),
        seq_sum(w) <= i64::MAX,
    ensures
        smooth_run(w, t).len() == w.len(),
        seq_sum(smooth_run(w, t)) == 0,
        forall|i: int| 0 <= i < w.len() ==> #[trigger] smooth_run(w, t)[i] > -seq_sum(w),
        forall|i: int| 0 <= i < w.len() ==> #[trigger] smooth_run(w, t)[i] == t * w[i] - seq_sum(w) * smooth_count(w, t, i),
        seq_sum(counts(w, t)) == t,
        0 <= smooth_pick(w, t) < w.len(),
        add_seq(smooth_run(w, t), w)[smooth_pick(w, t)] > 0,
    decreases t,
{
    let n = w.len();
    let total = seq_sum(w);
    assert(total >= n) by {
        lemma_sum_ge(w, 1);
    }
    if t == 0 {
        lemma_sum_zeros(n);
        assert(counts(w, 0) =~= zeros(n));
        assert forall|i: int| 0 <= i < n implies #[trigger] smooth_run(w, t)[i] == t * w[i] - total * smooth_count(
            w,
            t,
            i,
        ) by {
            assert(t * w[i] == 0) by (nonlinear_arith) requires t == 0;
            assert(total * smooth_count(w, t, i) == 0) by (nonlinear_arith) requires smooth_count(w, t, i) == 0;
        }
    } else {
        let p = (t - 1) as nat;
        lemma_smooth_invariant(w, p);
        let c = smooth_run(w, p);
        let c1 = add_seq(c, w);
        lemma_first_max(c1, n);
        let b = smooth_pick(w, p);
        lemma_sum_add(c, w);
        assert(c1[b] > 0) by {
            lemma_sum_le(c1, c1[b]);
            assert(seq_sum(c1) == total);
            assert(n * c1[b] >= total);
            assert(c1[b] > 0) by (nonlinear_arith)
                requires
                    n * c1[b] >= total,
                    total >= 1,
                    n >= 1,
            ;
        }
        lemma_sum_update(c1, b, c1[b] - total);
        assert(smooth_run(w, t) == c1.update(b, c1[b] - total));
        assert forall|i: int| 0 <= i < n implies #[trigger] smooth_run(w, t)[i] == t * w[i] - total * smooth_count(
            w,
            t,
            i,
        ) by {
            assert(t * w[i] == p * w[i] + w[i]) by (nonlinear_arith)
                requires
                    t == p + 1,
            ;
            assert(c[i] == p * w[i] - total * smooth_count(w, p, i));
            if i == b {
                assert(smooth_count(w, t, i) == smooth_count(w, p, i) + 1);
                assert(total * smooth_count(w, t, i) == total * smooth_count(w, p, i) + total) by (nonlinear_arith)
                    requires
                        smooth_count(w, t, i) == smooth_count(w, p, i) + 1,
                ;
            } else {
                assert(smooth_count(w, t, i) == smooth_count(w, p, i));
                assert(smooth_run(w, t)[i] == c1[i]);
            }
        }
        assert(counts(w, t) =~= counts(w, p).update(b, counts(w, p)[b] + 1));
        lemma_sum_update(counts(w, p), b, counts(w, p)[b] + 1);
    }
    let c = smooth_run(w, t);
    let c1 = add_seq(c, w);
    assert forall|j: int| 0 <= j < n implies #[trigger] c1[j] > i64::MIN by {}
    lemma_first_max(c1, n);
    let b = smooth_pick(w, t);
    lemma_sum_add(c, w);
    lemma_sum_le(c1, c1[b]);
    assert(c1[b] > 0) by (nonlinear_arith)
        requires
            n * c1[b] >= total,
            total >= 1,
            n >= 1,
    ;
}

/// After as many steps as the total weight, every position has been picked
/// exactly its weight's number of times and all current weights are zero.
pub proof fn lemma_smooth_full_period(w: Seq<int>)
    requires
        w.len() >= 1,
        positive(w),
        seq_sum(w) <= i64::MAX,
    ensures
        forall|i: int| 0 <= i < w.len() ==> #[trigger] smooth_count(w, seq_sum(w) as nat, i) == w[i],
        smooth_run(w, seq_sum(w) as nat) == zeros(w.len()),
{
    let n = w.len();
    let total = seq_sum(w);
    assert(total >= 1) by {
        lemma_sum_ge(w, 1);
        assert(n * 1 >= 1) by (nonlinear_arith) requires n >= 1;
    }
    let tt = total as nat;
    lemma_smooth_invariant(w, tt);
    let cs = counts(w, tt);
    assert forall|i: int| 0 <= i < n implies #[trigger] cs[i] <= w[i] by {
        let c = smooth_run(w, tt)[i];
        let k = smooth_count(w, tt, i) as int;
        assert(c == total * w[i] - total * k);
        assert(c > -total);
        assert(k <= w[i]) by (nonlinear_arith)
            requires
                total * w[i] - total * k > -total,
                total >= 1,
        ;
    }
    lemma_le_equal_sums(cs, w);
    assert forall|i: int| 0 <= i < n implies #[trigger] smooth_run(w, tt)[i] == zeros(n)[i] by {
        assert(cs[i] == w[i]);
        assert(total * w[i] - total * w[i] == 0);
    }
    assert(smooth_run(w, tt) =~= zeros(n));
}

/// Once the weights are back at zero, the steps repeat.
pub proof fn lemma_smooth_repeats(w: Seq<int>, period: nat, t: nat)
    requires
        smooth_run(w, period) == zeros(w.len()),
    ensures
        smooth_run(w, period + t) == smooth_run(w, t),
        smooth_pick(w, period + t) == smooth_pick(w, t),
    decreases t,
{
    if t > 0 {
        lemma_smooth_repeats(w, period, (t - 1) as nat);
        assert((period + t - 1) as nat == period + (t - 1) as nat);
    }
}

/// Scaling all weights by `d` scales the current weights by `d` and leaves
/// the picks unchanged.
pub proof fn lemma_smooth_scale(u: Seq<int>, d: int, t: nat)
    requires
        u.len() >= 1,
        positive(u),
        d >= 1,
        seq_sum(u) * d <= i64::MAX,
    ensures
        smooth_run(scale(u, d), t) == scale(smooth_run(u, t), d),
        smooth_pick(scale(u, d), t) == smooth_pick(u, t),
        forall|i: int| #[trigger] smooth_count(scale(u, d), t, i) == smooth_count(u, t, i),
    decreases t,
{
    let w = scale(u, d);
    let n = u.len();
    lemma_sum_scale(u, d);
    assert(seq_sum(u) >= 0) by {
        lemma_sum_ge(u, 1);
        assert(n * 1 >= 0) by (nonlinear_arith) requires n >= 1;
    }
    assert(seq_sum(u) <= seq_sum(u) * d) by (nonlinear_arith)
        requires
            d >= 1,
            seq_sum(u) >= 0,
    {
    }
    assert(positive(w)) by {
        assert forall|i: int| 0 <= i < n implies #[trigger] w[i] >= 1 by {
            assert(u[i] * d >= 1) by (nonlinear_arith)
                requires
                    u[i] >= 1,
                    d >= 1,
            ;
        }
    }
    if t == 0 {
        assert forall|i: int| 0 <= i < n implies zeros(n)[i] == scale(zeros(n), d)[i] by {
            assert(0 * d == 0) by (nonlinear_arith);
        }
        assert(zeros(n) =~= scale(zeros(n), d));
    } else {
        let p = (t - 1) as nat;
        lemma_smooth_scale(u, d, p);
        assert forall|i: int| #[trigger] smooth_count(w, t, i) == smooth_count(u, t, i) by {
            assert(smooth_count(w, p, i) == smooth_count(u, p, i));
            assert(smooth_pick(w, p) == smooth_pick(u, p));
        }
    }
    lemma_smooth_invariant(u, t);
    lemma_smooth_invariant(w, t);
    let cu = smooth_run(u, t);
    let cw = smooth_run(w, t);
    assert(cw == scale(cu, d)) by {
        if t > 0 {
            let p = (t - 1) as nat;
            let pu = smooth_run(u, p);
            let pw = smooth_run(w, p);
            lemma_smooth_invariant(u, p);
            lemma_smooth_invariant(w, p);
            let c1u = add_seq(pu, u);
            let c1w = add_seq(pw, w);
            assert(c1w =~= scale(c1u, d)) by {
                assert forall|i: int| 0 <= i < n implies c1w[i] == scale(c1u, d)[i] by {
                    assert(pu[i] * d + u[i] * d == (pu[i] + u[i]) * d) by (nonlinear_arith);
                }
            }
            lemma_pick_scale(c1u, d);
            let b = smooth_pick(u, p);
            assert(smooth_pick(w, p) == b);
            assert forall|i: int| 0 <= i < n implies cw[i] == scale(cu, d)[i] by {
                if i == b {
                    assert((c1u[b] - seq_sum(u)) * d == c1u[b] * d - seq_sum(u) * d) by (nonlinear_arith);
                }
            }
            assert(cw =~= scale(cu, d));
        }
    }
    let c1u = add_seq(cu, u);
    let c1w = add_seq(cw, w);
    assert(c1w =~= scale(c1u, d)) by {
        assert forall|i: int| 0 <= i < n implies c1w[i] == scale(c1u, d)[i] by {
            assert(cu[i] * d + u[i] * d == (cu[i] + u[i]) * d) by (nonlinear_arith);
        }
    }
    lemma_pick_scale(c1u, d);
}

/// The first of the largest values does not move when all are scaled by `d >= 1`.
proof fn lemma_pick_scale(v: Seq<int>, d: int)
    requires
        v.len() >= 1,
        d >= 1,
        forall|j: int| 0 <= j < v.len() ==> #[trigger] v[j] > i64::MIN,
        forall|j: int| 0 <= j < v.len() ==> #[trigger] scale(v, d)[j] > i64::MIN,
    ensures
        first_max(scale(v, d), v.len()).0 == first_max(v, v.len()).0,
{
    let sv = scale(v, d);
    lemma_first_max(v, v.len());
    lemma_first_max(sv, v.len());
    let b = first_max(v, v.len()).0->0;
    let b2 = first_max(sv, v.len()).0->0;
    assert forall|j: int| 0 <= j < v.len() implies #[trigger] sv[j] <= sv[b] by {
        assert(v[j] * d <= v[b] * d) by (nonlinear_arith)
            requires
                v[j] <= v[b],
                d >= 1,
        ;
    }
    assert forall|j: int| 0 <= j < b implies #[trigger] sv[j] < sv[b] by {
        assert(v[j] * d < v[b] * d) by (nonlinear_arith)
            requires
                v[j] < v[b],
                d >= 1,
        ;
    }
    lemma_first_of_largest_unique(sv, b, b2);
}

/// Smooth weighted round-robin is periodic: when every weight is a multiple
/// of `d`, the first `total / d` steps pick each position exactly
/// `weight / d` times, and the steps then repeat with that period.
pub proof fn lemma_smooth_period(w: Seq<int>, d: int)
    requires
        w.len() >= 1,
        positive(w),
        d >= 1,
        forall|i: int| 0 <= i < w.len() ==> #[trigger] (w[i] % d) == 0,
        seq_sum(w) <= i64::MAX,
    ensures
        seq_sum(w) % d == 0,
        forall|i: int| 0 <= i < w.len() ==> #[trigger] smooth_count(w, (seq_sum(w) / d) as nat, i) == w[i] / d,
        forall|t: nat| #[trigger] smooth_pick(w, (seq_sum(w) / d) as nat + t) == smooth_pick(w, t),
        forall|t: nat| #[trigger] smooth_run(w, (seq_sum(w) / d) as nat + t) == smooth_run(w, t),
{
    let n = w.len();
    let u = Seq::new(n, |i: int| w[i] / d);
    assert(scale(u, d) =~= w) by {
        assert forall|i: int| 0 <= i < n implies scale(u, d)[i] == w[i] by {
            assert((w[i] / d) * d == w[i]) by (nonlinear_arith)
                requires
                    w[i] % d == 0,
                    d >= 1,
            {
                vstd::arithmetic::div_mod::lemma_fundamental_div_mod(w[i], d);
            }
        }
    }
    assert(positive(u)) by {
        assert forall|i: int| 0 <= i < n implies #[trigger] u[i] >= 1 by {
            assert(w[i] / d >= 1) by (nonlinear_arith)
                requires
                    w[i] >= 1,
                    w[i] % d == 0,
                    d >= 1,
            {
                vstd::arithmetic::div_mod::lemma_fundamental_div_mod(w[i], d);
            }
        }
    }
    lemma_sum_scale(u, d);
    let su = seq_sum(u);
    assert(seq_sum(w) == su * d);
    assert(su >= 0) by {
        lemma_sum_ge(u, 1);
        assert(n * 1 >= 0) by (nonlinear_arith) requires n >= 1;
    }
    assert(seq_sum(w) % d == 0 && seq_sum(w) / d == su) by {
        vstd::arithmetic::div_mod::lemma_mod_multiples_basic(su, d);
        vstd::arithmetic::div_mod::lemma_div_multiples_vanish(su, d);
    }
    assert(su <= su * d) by (nonlinear_arith)
        requires
            su >= 0,
            d >= 1,
    ;
    lemma_smooth_full_period(u);
    let period = su as nat;
    assert forall|i: int| 0 <= i < n implies #[trigger] smooth_count(w, period, i) == w[i] / d by {
        lemma_smooth_scale(u, d, period);
        assert(smooth_count(u, period, i) == u[i]);
    }
    assert forall|t: nat| #[trigger] smooth_pick(w, period + t) == smooth_pick(w, t) by {
        lemma_smooth_repeats(u, period, t);
        lemma_smooth_scale(u, d, period + t);
        lemma_smooth_scale(u, d, t);
    }
    assert forall|t: nat| #[trigger] smooth_run(w, period + t) == smooth_run(w, t) by {
        lemma_smooth_repeats(u, period, t);
        lemma_smooth_scale(u, d, period + t);
        lemma_smooth_scale(u, d, t);
    }
}

} // verus!
