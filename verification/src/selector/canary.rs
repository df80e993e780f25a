//! Tag (canary / grey release) filtering in front of another selector.
use vstd::prelude::*;
use vstd::string::StringSliceAdditionalSpecFns;
use crate::instance::{ServiceInstance, ServiceInstanceView, views};
use crate::strmap::lookup;
use crate::text::{bytes_contain, str_contains, str_eq};
use super::{SelectContext, SelectContextView, Selector, opt_index};

verus! {

broadcast use vstd::string::group_string_axioms;

/// An instance carries tag `key = val`: its metadata maps `key` to `val`, or its
/// group or namespace is `val`, or its identifier contains `val`.
pub open spec fn tag_matches(inst: ServiceInstanceView, key: Seq<char>, val: Seq<char>) -> bool {
    ||| lookup(inst.metadata, key) == Some(val)
    ||| inst.group == val
    ||| inst.namespace == val
    ||| bytes_contain(vstd::utf8::encode_utf8(inst.service_id), vstd::utf8::encode_utf8(val))
}

/// The instances that carry tag `key = val`, in their order.
pub open spec fn tag_filter(s: Seq<ServiceInstanceView>, key: Seq<char>, val: Seq<char>) -> Seq<
    ServiceInstanceView,
>
    decreases s.len(),
{
    if s.len() == 0 {
        Seq::empty()
    } else {
        let rest = tag_filter(s.drop_last(), key, val);
        if tag_matches(s.last(), key, val) {
            rest.push(s.last())
        } else {
            rest
        }
    }
}

/// The first position whose instance has identifier `id`.
pub open spec fn first_with_id(s: Seq<ServiceInstanceView>, id: Seq<char>) -> Option<int>
    decreases s.len(),
{
    if s.len() == 0 {
        None
    } else {
        match first_with_id(s.drop_last(), id) {
            Some(i) => Some(i),
            None => if s.last().service_id == id {
                Some(s.len() - 1)
            } else {
                None
            },
        }
    }
}

/// Everything `first_with_id` finds is a valid, earliest match.
pub proof fn lemma_first_with_id(s: Seq<ServiceInstanceView>, id: Seq<char>)
    ensures
        first_with_id(s, id) matches Some(i) ==> 0 <= i < s.len() && s[i].service_id == id && forall|
            j: int,
        |
            0 <= j < i ==> #[trigger] s[j].service_id != id,
        first_with_id(s, id) is None ==> forall|j: int| 0 <= j < s.len() ==> #[trigger] s[j].service_id != id,
    decreases s.len(),
{
    if s.len() > 0 {
        lemma_first_with_id(s.drop_last(), id);
        assert forall|j: int| 0 <= j < s.len() - 1 implies s.drop_last()[j] == s[j] by {}
    }
}

/// Every instance that the filter keeps comes from `s`.
pub proof fn lemma_tag_filter_members(s: Seq<ServiceInstanceView>, key: Seq<char>, val: Seq<char>)
    ensures
        forall|j: int|
            0 <= j < tag_filter(s, key, val).len() ==> exists|i: int|
                0 <= i < s.len() && s[i] == #[trigger] tag_filter(s, key, val)[j],
    decreases s.len(),
{
    if s.len() > 0 {
        lemma_tag_filter_members(s.drop_last(), key, val);
        let rest = tag_filter(s.drop_last(), key, val);
        assert forall|j: int| 0 <= j < tag_filter(s, key, val).len() implies exists|i: int|
            0 <= i < s.len() && s[i] == #[trigger] tag_filter(s, key, val)[j] by {
            if j < rest.len() {
                let i = choose|i: int| 0 <= i < s.drop_last().len() && s.drop_last()[i] == rest[j];
                assert(s[i] == rest[j]);
            } else {
                assert(s[s.len() - 1] == tag_filter(s, key, val)[j]);
            }
        }
    }
}

/// Whether `inst` carries tag `key = val`.
pub fn has_tag(inst: &ServiceInstance, key: &str, val: &str) -> (r: bool)
    ensures
        r == tag_matches(inst@, key@, val@),
{
    let by_meta = match inst.metadata.get(key) {
        Some(v) => str_eq(v.as_str(), val),
        None => false,
    };
    by_meta || str_eq(inst.group.as_str(), val) || str_eq(inst.namespace.as_str(), val)
        || str_contains(inst.service_id.as_str(), val)
}

/// Copies of the instances that carry tag `key = val`.
pub fn filter_tagged(instances: &[ServiceInstance], key: &str, val: &str) -> (r: Vec<ServiceInstance>)
    ensures
        views(r@) == tag_filter(views(instances@), key@, val@),
{
    let mut out: Vec<ServiceInstance> = Vec::new();
    let mut i: usize = 0;
    while i < instances.len()
        invariant
            0 <= i <= instances@.len(),
            views(out@) == tag_filter(views(instances@).take(i as int), key@, val@),
        decreases instances@.len() - i,
    {
        let ghost before = out@;
        assert(views(instances@).take(i + 1).drop_last() =~= views(instances@).take(i as int));
        if has_tag(&instances[i], key, val) {
            out.push(instances[i].clone());
            assert(views(out@) =~= views(before).push(instances@[i as int]@));
        }
        i = i + 1;
    }
    assert(views(instances@).take(instances@.len() as int) =~= views(instances@));
    out
}

/// The position of the first instance with identifier `id`.
pub fn first_index_with_id(instances: &[ServiceInstance], id: &str) -> (r: Option<usize>)
    ensures
        opt_index(r) == first_with_id(views(instances@), id@),
        r matches Some(i) ==> i < instances@.len(),
{
    proof {
        lemma_first_with_id(views(instances@), id@);
    }
    let mut i: usize = 0;
    while i < instances.len()
        invariant
            0 <= i <= instances@.len(),
            forall|j: int| 0 <= j < i ==> #[trigger] views(instances@)[j].service_id != id@,
            first_with_id(views(instances@), id@) matches Some(f) ==> 0 <= f < views(instances@).len()
                && views(instances@)[f].service_id == id@ && forall|j: int|
                0 <= j < f ==> #[trigger] views(instances@)[j].service_id != id@,
            first_with_id(views(instances@), id@) is None ==> forall|j: int|
                0 <= j < views(instances@).len() ==> #[trigger] views(instances@)[j].service_id
                    != id@,
        decreases instances@.len() - i,
    {
        if str_eq(instances[i].service_id.as_str(), id) {
            assert(views(instances@)[i as int].service_id == id@);
            return Some(i);
        }
        i = i + 1;
    }
    None
}

/// Prefers instances that carry the context's required tag, choosing among them
/// with the inner selector; when none carries it, either falls back to all
/// instances (the default) or picks nothing.
pub struct TagFilterSelector<S: Selector> {
    inner: S,
    fallback_on_miss: bool,
}

impl<S: Selector> TagFilterSelector<S> {
    /// Wraps `inner`, falling back to all instances on a miss.
    pub fn new(inner: S) -> (r: Self)
        ensures
            r.inner_spec() == inner,
            r.fallback_spec(),
    {
        TagFilterSelector { inner, fallback_on_miss: true }
    }

    /// Sets whether a miss falls back to all instances.
    pub fn with_fallback(self, fallback: bool) -> (r: Self)
        ensures
            r.inner_spec() == self.inner_spec(),
            r.fallback_spec() == fallback,
    {
        TagFilterSelector { inner: self.inner, fallback_on_miss: fallback }
    }

    /// The wrapped selector.
    pub closed spec fn inner_spec(&self) -> S {
        self.inner
    }

    /// Whether a miss falls back to all instances.
    pub closed spec fn fallback_spec(&self) -> bool {
        self.fallback_on_miss
    }
}

impl<S: Selector> Selector for TagFilterSelector<S> {
    open spec fn select_rel(
        self,
        next: Self,
        ctx: SelectContextView,
        instances: Seq<ServiceInstanceView>,
        pick: Option<int>,
    ) -> bool {
        &&& next.fallback_spec() == self.fallback_spec()
        &&& match ctx.required_tag {
            None => S::select_rel(self.inner_spec(), next.inner_spec(), ctx, instances, pick),
            Some((key, val)) => {
                let tagged = tag_filter(instances, key, val);
                if tagged.len() > 0 {
                    exists|mid: S, first: Option<int>|
                        #[trigger] S::select_rel(self.inner_spec(), mid, ctx, tagged, first) && match first {
                            Some(j) => next.inner_spec() == mid && pick == first_with_id(
                                instances,
                                tagged[j].service_id,
                            ),
                            None => S::select_rel(mid, next.inner_spec(), ctx, instances, pick),
                        }
                } else if !self.fallback_spec() {
                    next.inner_spec() == self.inner_spec() && pick is None
                } else {
                    S::select_rel(self.inner_spec(), next.inner_spec(), ctx, instances, pick)
                }
            },
        }
    }

    fn select_index(&mut self, ctx: &SelectContext, instances: &[ServiceInstance]) -> (r: Option<usize>) {
        match &ctx.required_tag {
            Some((key, val)) => {
                let tagged = filter_tagged(instances, key.as_str(), val.as_str());
                if tagged.len() > 0 {
                    let ghost s0 = self.inner;
                    let first = self.inner.select_index(ctx, tagged.as_slice());
                    let ghost mid = self.inner;
                    assert(S::select_rel(s0, mid, ctx@, views(tagged@), opt_index(first)));
                    assert(ctx@.required_tag == Some((key@, val@)));
                    assert(s0 == old(self).inner_spec());
                    let ghost tv = tag_filter(views(instances@), key@, val@);
                    assert(views(tagged@) == tv);
                    match first {
                        Some(j) => {
                            let r = first_index_with_id(instances, tagged[j].service_id.as_str());
                            assert(views(tagged@)[j as int].service_id == tagged@[j as int].service_id@);
                            assert(S::select_rel(old(self).inner_spec(), mid, ctx@, tv, opt_index(first)));
                            assert(self.inner_spec() == mid);
                            return r;
                        },
                        None => {
                            let r = self.inner.select_index(ctx, instances);
                            assert(S::select_rel(mid, self.inner, ctx@, views(instances@), opt_index(r)));
                            assert(S::select_rel(old(self).inner_spec(), mid, ctx@, tv, opt_index(first)));
                            return r;
                        },
                    }
                } else if !self.fallback_on_miss {
                    return None;
                }
            },
            None => {},
        }
        self.inner.select_index(ctx, instances)
    }
}


/// The tagged instances all carry the tag.
pub proof fn lemma_tag_filter_matches(s: Seq<ServiceInstanceView>, key: Seq<char>, val: Seq<char>)
    ensures
        forall|j: int| 0 <= j < tag_filter(s, key, val).len() ==> tag_matches(#[trigger] tag_filter(s, key, val)[j], key, val),
    decreases s.len(),
{
    if s.len() > 0 {
        lemma_tag_filter_matches(s.drop_last(), key, val);
        let rest = tag_filter(s.drop_last(), key, val);
        assert forall|j: int| 0 <= j < tag_filter(s, key, val).len() implies tag_matches(#[trigger] tag_filter(s, key, val)[j], key, val) by {
            if j < rest.len() {
                assert(tag_filter(s, key, val)[j] == rest[j]);
            }
        }
    }
}

/// Canary routing: when the context requires a tag, some candidate carries it,
/// identifiers are distinct and the inner selector picks among the tagged
/// ones, the instance picked carries the tag; when no candidate carries it
/// and fallback is off, nothing is picked.
pub proof fn law_canary_routes_to_tagged<S: Selector>(
    sel: TagFilterSelector<S>,
    next: TagFilterSelector<S>,
    ctx: SelectContextView,
    instances: Seq<ServiceInstanceView>,
    pick: Option<int>,
    key: Seq<char>,
    val: Seq<char>,
)
    requires
        ctx.required_tag == Some((key, val)),
        forall|i: int, j: int| 0 <= i < instances.len() && 0 <= j < instances.len() && i != j ==> #[trigger] instances[i].service_id
            != #[trigger] instances[j].service_id,
        sel.select_rel(next, ctx, instances, pick),
        forall|mid: S, p: Option<int>| #[trigger] S::select_rel(sel.inner_spec(), mid, ctx, tag_filter(instances, key, val), p)
            ==> (p matches Some(j) && 0 <= j < tag_filter(instances, key, val).len()),
    ensures
        tag_filter(instances, key, val).len() > 0 ==> (pick matches Some(i) && 0 <= i < instances.len()
            && tag_matches(instances[i], key, val)),
        tag_filter(instances, key, val).len() == 0 && !sel.fallback_spec() ==> pick is None,
{
    let tagged = tag_filter(instances, key, val);
    if tagged.len() > 0 {
        let (mid, first) = choose|mid: S, first: Option<int>|
            #[trigger] S::select_rel(sel.inner_spec(), mid, ctx, tagged, first) && match first {
                Some(j) => next.inner_spec() == mid && pick == first_with_id(instances, tagged[j].service_id),
                None => S::select_rel(mid, next.inner_spec(), ctx, instances, pick),
            };
        let j = first->0;
        lemma_tag_filter_members(instances, key, val);
        lemma_tag_filter_matches(instances, key, val);
        lemma_first_with_id(instances, tagged[j].service_id);
        let i0 = choose|i: int| 0 <= i < instances.len() && instances[i] == tagged[j];
        assert(tag_matches(tagged[j], key, val));
        match first_with_id(instances, tagged[j].service_id) {
            Some(f) => {
                if f != i0 {
                    assert(instances[f].service_id == instances[i0].service_id);
                }
            },
            None => {
                assert(instances[i0].service_id == tagged[j].service_id);
            },
        }
    }
}


/// No candidate carries the tag: then none is kept by the filter.
proof fn lemma_tag_filter_none(s: Seq<ServiceInstanceView>, key: Seq<char>, val: Seq<char>)
    requires
        forall|i: int| 0 <= i < s.len() ==> !tag_matches(#[trigger] s[i], key, val),
    ensures
        tag_filter(s, key, val).len() == 0,
    decreases s.len(),
{
    if s.len() > 0 {
        assert forall|i: int| 0 <= i < s.drop_last().len() implies !tag_matches(#[trigger] s.drop_last()[i], key, val) by {
            assert(s.drop_last()[i] == s[i]);
        }
        lemma_tag_filter_none(s.drop_last(), key, val);
        assert(!tag_matches(s[s.len() - 1], key, val));
    }
}

/// Falling back on a miss: when the context requires a tag that no candidate
/// carries and fallback is on, a tag-filtered selection is exactly the inner
/// selector's selection over all candidates, its pick and its next state.
pub proof fn law_canary_miss_falls_back_to_inner<S: Selector>(
    sel: TagFilterSelector<S>,
    next: TagFilterSelector<S>,
    ctx: SelectContextView,
    instances: Seq<ServiceInstanceView>,
    pick: Option<int>,
    key: Seq<char>,
    val: Seq<char>,
)
    requires
        ctx.required_tag == Some((key, val)),
        forall|i: int| 0 <= i < instances.len() ==> !tag_matches(#[trigger] instances[i], key, val),
        sel.fallback_spec(),
    ensures
        sel.select_rel(next, ctx, instances, pick) <==> (S::select_rel(
            sel.inner_spec(),
            next.inner_spec(),
            ctx,
            instances,
            pick,
        ) && next.fallback_spec() == sel.fallback_spec()),
{
    lemma_tag_filter_none(instances, key, val);
}

} // verus!
