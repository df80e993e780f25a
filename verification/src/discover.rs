//! The changes a discovery stream reports when a service's instances change.
use vstd::prelude::*;
use crate::instance::{ServiceInstance, ServiceInstanceView, EndpointView, views, url_of};
use crate::selector::consistent_hash::string_views;
use crate::text::str_eq;

verus! {

broadcast use vstd::string::group_string_axioms;

/// One change of a discovery stream, keyed by instance identifier.
#[derive(Debug)]
pub enum DiscoverChange {
    Insert(String, ServiceInstance),
    Remove(String),
}

/// Whether `s` is among `v`.
pub fn contains_str(v: &Vec<String>, s: &str) -> (r: bool)
    ensures
        r == string_views(v@).contains(s@),
{
    let mut i: usize = 0;
    while i < v.len()
        invariant
            0 <= i <= v@.len(),
            forall|k: int| 0 <= k < i ==> string_views(v@)[k] != s@,
        decreases v@.len() - i,
    {
        if str_eq(v[i].as_str(), s) {
            assert(string_views(v@)[i as int] == s@);
            return true;
        }
        i = i + 1;
    }
    false
}

/// The members of `s` not in `out`, in order.
pub open spec fn missing_from(s: Seq<Seq<char>>, out: Seq<Seq<char>>) -> Seq<Seq<char>>
    decreases s.len(),
{
    if s.len() == 0 {
        Seq::empty()
    } else {
        let r = missing_from(s.drop_last(), out);
        if out.contains(s.last()) {
            r
        } else {
            r.push(s.last())
        }
    }
}

/// `s` without repeats, first occurrences kept in order.
pub open spec fn dedup(s: Seq<Seq<char>>) -> Seq<Seq<char>>
    decreases s.len(),
{
    if s.len() == 0 {
        Seq::empty()
    } else {
        let r = dedup(s.drop_last());
        if r.contains(s.last()) {
            r
        } else {
            r.push(s.last())
        }
    }
}

/// `dedup` keeps exactly the members of `s`.
pub proof fn lemma_dedup_members(s: Seq<Seq<char>>)
    ensures
        forall|x: Seq<char>| #[trigger] dedup(s).contains(x) <==> s.contains(x),
    decreases s.len(),
{
    if s.len() > 0 {
        let init = s.drop_last();
        lemma_dedup_members(init);
        let r = dedup(init);
        assert forall|x: Seq<char>| #[trigger] dedup(s).contains(x) <==> s.contains(x) by {
            if s.contains(x) {
                let k = choose|k: int| 0 <= k < s.len() && s[k] == x;
                if k < s.len() - 1 {
                    assert(init[k] == x);
                    assert(r.contains(x));
                    let m = choose|m: int| 0 <= m < r.len() && r[m] == x;
                    if !r.contains(s.last()) {
                        assert(r.push(s.last())[m] == x);
                    }
                } else if !r.contains(s.last()) {
                    assert(r.push(s.last())[r.len() as int] == x);
                }
            }
            if dedup(s).contains(x) {
                let m = choose|m: int| 0 <= m < dedup(s).len() && dedup(s)[m] == x;
                if m < r.len() {
                    assert(r[m] == x);
                    assert(r.contains(x));
                    assert(init.contains(x));
                    let k = choose|k: int| 0 <= k < init.len() && init[k] == x;
                    assert(s[k] == x);
                } else {
                    assert(s[s.len() - 1] == x);
                }
            }
        }
    }
}

/// The instances whose identifier is not in `known`, in order.
pub open spec fn unknown_instances(s: Seq<ServiceInstanceView>, known: Seq<Seq<char>>) -> Seq<ServiceInstanceView>
    decreases s.len(),
{
    if s.len() == 0 {
        Seq::empty()
    } else {
        let r = unknown_instances(s.drop_last(), known);
        if known.contains(s.last().service_id) {
            r
        } else {
            r.push(s.last())
        }
    }
}

/// The identifiers of a sequence of instances.
pub open spec fn instance_ids(s: Seq<ServiceInstanceView>) -> Seq<Seq<char>> {
    s.map_values(|x: ServiceInstanceView| x.service_id)
}

/// The changes and new identifier set of a discovery stream: a removal for
/// every known identifier that is gone, an insertion for every instance whose
/// identifier was not known, and the identifiers now present.
pub struct DiscoverDiff {
    pub removed: Seq<Seq<char>>,
    pub inserted: Seq<ServiceInstanceView>,
    pub known: Seq<Seq<char>>,
}

pub open spec fn discover_diff_spec(known: Seq<Seq<char>>, instances: Seq<ServiceInstanceView>) -> DiscoverDiff {
    DiscoverDiff {
        removed: missing_from(known, instance_ids(instances)),
        inserted: unknown_instances(instances, known),
        known: dedup(instance_ids(instances)),
    }
}

/// The changes views: `Remove(id)` as `(id, None)`, `Insert(id, i)` as `(id, Some(i))`.
pub open spec fn change_view(c: DiscoverChange) -> (Seq<char>, Option<ServiceInstanceView>) {
    match c {
        DiscoverChange::Insert(id, i) => (id@, Some(i@)),
        DiscoverChange::Remove(id) => (id@, None),
    }
}

pub open spec fn changes_view(s: Seq<DiscoverChange>) -> Seq<(Seq<char>, Option<ServiceInstanceView>)> {
    s.map_values(|c: DiscoverChange| change_view(c))
}

/// The insertions that open a discovery stream: one per instance.
pub fn initial_changes(instances: &[ServiceInstance]) -> (r: Vec<DiscoverChange>)
    ensures
        changes_view(r@) == views(instances@).map_values(|i: ServiceInstanceView| (i.service_id, Some(i))),
{
    let ghost target = views(instances@).map_values(|i: ServiceInstanceView| (i.service_id, Some(i)));
    let mut out: Vec<DiscoverChange> = Vec::new();
    let mut i: usize = 0;
    while i < instances.len()
        invariant
            0 <= i <= instances@.len(),
            target == views(instances@).map_values(|i: ServiceInstanceView| (i.service_id, Some(i))),
            changes_view(out@) == target.take(i as int),
        decreases instances@.len() - i,
    {
        let ghost before = out@;
        out.push(DiscoverChange::Insert(instances[i].service_id.clone(), instances[i].clone()));
        assert(changes_view(out@) =~= changes_view(before).push(target[i as int]));
        assert(changes_view(out@) =~= target.take(i + 1));
        i = i + 1;
    }
    assert(target.take(instances@.len() as int) =~= target);
    out
}

/// The identifiers of the instances, without repeats.
pub fn distinct_ids(instances: &[ServiceInstance]) -> (r: Vec<String>)
    ensures
        string_views(r@) == dedup(instance_ids(views(instances@))),
{
    let ghost ids = instance_ids(views(instances@));
    let mut out: Vec<String> = Vec::new();
    let mut i: usize = 0;
    while i < instances.len()
        invariant
            0 <= i <= instances@.len(),
            ids == instance_ids(views(instances@)),
            string_views(out@) == dedup(ids.take(i as int)),
        decreases instances@.len() - i,
    {
        let ghost before = out@;
        assert(ids.take(i + 1).drop_last() =~= ids.take(i as int));
        assert(ids.take(i + 1).last() == instances@[i as int].service_id@);
        if !contains_str(&out, instances[i].service_id.as_str()) {
            out.push(instances[i].service_id.clone());
            assert(string_views(out@) =~= string_views(before).push(instances@[i as int].service_id@));
        }
        i = i + 1;
    }
    assert(ids.take(instances@.len() as int) =~= ids);
    out
}

/// The changes a discovery stream reports when the instance list becomes
/// `instances` while `known` identifiers were reported; also the new set.
pub fn discover_changes(known: &Vec<String>, instances: &[ServiceInstance]) -> (r: (Vec<DiscoverChange>, Vec<String>))
    ensures
        changes_view(r.0@) == discover_diff_spec(string_views(known@), views(instances@)).removed.map_values(
            |id: Seq<char>| (id, None::<ServiceInstanceView>),
        ) + discover_diff_spec(string_views(known@), views(instances@)).inserted.map_values(
            |i: ServiceInstanceView| (i.service_id, Some(i)),
        ),
        string_views(r.1@) == discover_diff_spec(string_views(known@), views(instances@)).known,
{
    let new_ids = distinct_ids(instances);
    let ghost kv = string_views(known@);
    let ghost present = instance_ids(views(instances@));
    proof {
        lemma_dedup_members(present);
    }
    let ghost rem = missing_from(kv, present).map_values(|id: Seq<char>| (id, None::<ServiceInstanceView>));
    let mut out: Vec<DiscoverChange> = Vec::new();
    let mut i: usize = 0;
    while i < known.len()
        invariant
            0 <= i <= known@.len(),
            kv == string_views(known@),
            string_views(new_ids@) == dedup(present),
            forall|x: Seq<char>| #[trigger] dedup(present).contains(x) <==> present.contains(x),
            rem == missing_from(kv, present).map_values(|id: Seq<char>| (id, None::<ServiceInstanceView>)),
            changes_view(out@) == missing_from(kv.take(i as int), present).map_values(
                |id: Seq<char>| (id, None::<ServiceInstanceView>),
            ),
        decreases known@.len() - i,
    {
        let ghost before = out@;
        assert(kv.take(i + 1).drop_last() =~= kv.take(i as int));
        assert(kv.take(i + 1).last() == known@[i as int]@);
        if !contains_str(&new_ids, known[i].as_str()) {
            out.push(DiscoverChange::Remove(known[i].clone()));
            assert(changes_view(out@) =~= changes_view(before).push((known@[i as int]@, None::<ServiceInstanceView>)));
        }
        assert(changes_view(out@) =~= missing_from(kv.take(i + 1), present).map_values(
            |id: Seq<char>| (id, None::<ServiceInstanceView>),
        ));
        i = i + 1;
    }
    assert(kv.take(known@.len() as int) =~= kv);
    let ghost ins = unknown_instances(views(instances@), kv).map_values(|i: ServiceInstanceView| (i.service_id, Some(i)));
    let mut j: usize = 0;
    while j < instances.len()
        invariant
            0 <= j <= instances@.len(),
            kv == string_views(known@),
            ins == unknown_instances(views(instances@), kv).map_values(|i: ServiceInstanceView| (i.service_id, Some(i))),
            changes_view(out@) == rem + unknown_instances(views(instances@).take(j as int), kv).map_values(
                |i: ServiceInstanceView| (i.service_id, Some(i)),
            ),
        decreases instances@.len() - j,
    {
        let ghost before = out@;
        assert(views(instances@).take(j + 1).drop_last() =~= views(instances@).take(j as int));
        assert(views(instances@).take(j + 1).last() == instances@[j as int]@);
        if !contains_str(known, instances[j].service_id.as_str()) {
            out.push(DiscoverChange::Insert(instances[j].service_id.clone(), instances[j].clone()));
            assert(changes_view(out@) =~= changes_view(before).push((instances@[j as int]@.service_id, Some(instances@[j as int]@))));
        }
        assert(changes_view(out@) =~= rem + unknown_instances(views(instances@).take(j + 1), kv).map_values(
            |i: ServiceInstanceView| (i.service_id, Some(i)),
        ));
        j = j + 1;
    }
    assert(views(instances@).take(instances@.len() as int) =~= views(instances@));
    (out, new_ids)
}


/// The URL a gRPC endpoint is dialled at (`http` unless it has a scheme).
pub open spec fn grpc_url(e: EndpointView) -> Seq<char> {
    url_of(
        match e.scheme {
            Some(sc) => sc,
            None => "http"@,
        },
        e.address,
        e.port,
    )
}

/// The gRPC instances whose identifier is not in `known`, as `(id, url)`.
pub open spec fn grpc_targets(s: Seq<ServiceInstanceView>, known: Seq<Seq<char>>) -> Seq<(Seq<char>, Seq<char>)>
    decreases s.len(),
{
    if s.len() == 0 {
        Seq::empty()
    } else {
        let r = grpc_targets(s.drop_last(), known);
        match s.last().grpc {
            Some(e) => if known.contains(s.last().service_id) {
                r
            } else {
                r.push((s.last().service_id, grpc_url(e)))
            },
            None => r,
        }
    }
}

/// The identifiers of the instances that have a gRPC endpoint.
pub open spec fn grpc_ids(s: Seq<ServiceInstanceView>) -> Seq<Seq<char>>
    decreases s.len(),
{
    if s.len() == 0 {
        Seq::empty()
    } else {
        let r = grpc_ids(s.drop_last());
        if s.last().grpc is Some {
            r.push(s.last().service_id)
        } else {
            r
        }
    }
}

/// The changes to a gRPC balancer when the instance list becomes `instances`
/// while `known` identifiers are connected: endpoints to insert (gRPC
/// instances not yet known, with their URLs), identifiers to remove (known
/// ones that no longer have a gRPC instance), and the identifiers now present.
pub struct GrpcDiff {
    pub inserts: Seq<(Seq<char>, Seq<char>)>,
    pub removes: Seq<Seq<char>>,
    pub known: Seq<Seq<char>>,
}

pub open spec fn grpc_diff_spec(known: Seq<Seq<char>>, instances: Seq<ServiceInstanceView>) -> GrpcDiff {
    GrpcDiff {
        inserts: grpc_targets(instances, known),
        removes: missing_from(known, grpc_ids(instances)),
        known: dedup(grpc_ids(instances)),
    }
}

pub open spec fn pairs_view(s: Seq<(String, String)>) -> Seq<(Seq<char>, Seq<char>)> {
    s.map_values(|p: (String, String)| (p.0@, p.1@))
}

/// The gRPC endpoints (identifier, URL) of instances not in `known`.
pub fn grpc_targets_of(known: &Vec<String>, instances: &[ServiceInstance]) -> (r: Vec<(String, String)>)
    ensures
        pairs_view(r@) == grpc_targets(views(instances@), string_views(known@)),
{
    let ghost kv = string_views(known@);
    let ghost vs = views(instances@);
    let mut out: Vec<(String, String)> = Vec::new();
    let mut i: usize = 0;
    while i < instances.len()
        invariant
            0 <= i <= instances@.len(),
            kv == string_views(known@),
            vs == views(instances@),
            pairs_view(out@) == grpc_targets(vs.take(i as int), kv),
        decreases instances@.len() - i,
    {
        let ghost before = out@;
        assert(vs.take(i + 1).drop_last() =~= vs.take(i as int));
        assert(vs.take(i + 1).last() == instances@[i as int]@);
        let inst = &instances[i];
        match &inst.grpc {
            Some(g) => {
                if !contains_str(known, inst.service_id.as_str()) {
                    let url = g.to_url("http");
                    out.push((inst.service_id.clone(), url));
                    assert(pairs_view(out@) =~= pairs_view(before).push((inst@.service_id, grpc_url(g@))));
                }
            },
            None => {},
        }
        i = i + 1;
    }
    assert(vs.take(instances@.len() as int) =~= vs);
    out
}

/// The identifiers of the gRPC instances, without repeats.
pub fn grpc_known_ids(instances: &[ServiceInstance]) -> (r: Vec<String>)
    ensures
        string_views(r@) == dedup(grpc_ids(views(instances@))),
{
    let ghost vs = views(instances@);
    let mut out: Vec<String> = Vec::new();
    let mut i: usize = 0;
    while i < instances.len()
        invariant
            0 <= i <= instances@.len(),
            vs == views(instances@),
            string_views(out@) == dedup(grpc_ids(vs.take(i as int))),
        decreases instances@.len() - i,
    {
        let ghost before = out@;
        assert(vs.take(i + 1).drop_last() =~= vs.take(i as int));
        assert(vs.take(i + 1).last() == instances@[i as int]@);
        let ghost g = grpc_ids(vs.take(i as int));
        if instances[i].grpc.is_some() {
            assert(grpc_ids(vs.take(i + 1)) == g.push(instances@[i as int]@.service_id));
            assert(grpc_ids(vs.take(i + 1)).drop_last() =~= g);
            if !contains_str(&out, instances[i].service_id.as_str()) {
                out.push(instances[i].service_id.clone());
                assert(string_views(out@) =~= string_views(before).push(instances@[i as int].service_id@));
            }
        } else {
            assert(grpc_ids(vs.take(i + 1)) == g);
        }
        i = i + 1;
    }
    assert(vs.take(instances@.len() as int) =~= vs);
    out
}

/// The identifiers of `known` that are not among `present`.
pub fn missing_ids(known: &Vec<String>, present: &Vec<String>) -> (r: Vec<String>)
    ensures
        string_views(r@) == missing_from(string_views(known@), string_views(present@)),
{
    let ghost kv = string_views(known@);
    let mut out: Vec<String> = Vec::new();
    let mut i: usize = 0;
    while i < known.len()
        invariant
            0 <= i <= known@.len(),
            kv == string_views(known@),
            string_views(out@) == missing_from(kv.take(i as int), string_views(present@)),
        decreases known@.len() - i,
    {
        let ghost before = out@;
        assert(kv.take(i + 1).drop_last() =~= kv.take(i as int));
        assert(kv.take(i + 1).last() == known@[i as int]@);
        if !contains_str(present, known[i].as_str()) {
            out.push(known[i].clone());
            assert(string_views(out@) =~= string_views(before).push(known@[i as int]@));
        }
        i = i + 1;
    }
    assert(kv.take(known@.len() as int) =~= kv);
    out
}

/// The balancer changes for a new instance list.
pub fn grpc_changes(known: &Vec<String>, instances: &[ServiceInstance]) -> (r: (Vec<(String, String)>, Vec<String>, Vec<String>))
    ensures
        pairs_view(r.0@) == grpc_diff_spec(string_views(known@), views(instances@)).inserts,
        string_views(r.1@) == grpc_diff_spec(string_views(known@), views(instances@)).removes,
        string_views(r.2@) == grpc_diff_spec(string_views(known@), views(instances@)).known,
{
    let inserts = grpc_targets_of(known, instances);
    let new_known = grpc_known_ids(instances);
    proof {
        lemma_dedup_members(grpc_ids(views(instances@)));
        lemma_missing_from_members(string_views(known@), dedup(grpc_ids(views(instances@))), grpc_ids(views(instances@)));
    }
    let removes = missing_ids(known, &new_known);
    (inserts, removes, new_known)
}

/// Sets with the same members leave the same items missing.
pub proof fn lemma_missing_from_members(s: Seq<Seq<char>>, a: Seq<Seq<char>>, b: Seq<Seq<char>>)
    requires
        forall|x: Seq<char>| #[trigger] a.contains(x) <==> b.contains(x),
    ensures
        missing_from(s, a) == missing_from(s, b),
    decreases s.len(),
{
    if s.len() > 0 {
        lemma_missing_from_members(s.drop_last(), a, b);
        assert(a.contains(s.last()) == b.contains(s.last()));
    }
}


/// The inserted endpoints are the gRPC instances not yet known, with `grpc_url`.
proof fn lemma_grpc_targets_members(known: Seq<Seq<char>>, instances: Seq<ServiceInstanceView>)
    ensures
        forall|k: int|
            0 <= k < grpc_targets(instances, known).len() ==> exists|i: int|
                0 <= i < instances.len() && instances[i].grpc is Some && !known.contains(instances[i].service_id)
                    && #[trigger] grpc_targets(instances, known)[k] == (
                    instances[i].service_id,
                    grpc_url(instances[i].grpc->0),
                ),
        forall|i: int|
            0 <= i < instances.len() && (#[trigger] instances[i]).grpc is Some && !known.contains(
                instances[i].service_id,
            ) ==> exists|k: int|
                0 <= k < grpc_targets(instances, known).len() && grpc_targets(instances, known)[k] == (
                    instances[i].service_id,
                    grpc_url(instances[i].grpc->0),
                ),
    decreases instances.len(),
{
    if instances.len() > 0 {
        let s0 = instances.drop_last();
        lemma_grpc_targets_members(known, s0);
        let r = grpc_targets(s0, known);
        let t = grpc_targets(instances, known);
        let last = instances.len() - 1;
        assert forall|k: int| 0 <= k < t.len() implies exists|i: int|
            0 <= i < instances.len() && instances[i].grpc is Some && !known.contains(instances[i].service_id)
                && #[trigger] t[k] == (instances[i].service_id, grpc_url(instances[i].grpc->0)) by {
            if k < r.len() {
                assert(t[k] == r[k]);
                let i = choose|i: int|
                    0 <= i < s0.len() && s0[i].grpc is Some && !known.contains(s0[i].service_id)
                        && #[trigger] r[k] == (s0[i].service_id, grpc_url(s0[i].grpc->0));
                assert(s0[i] == instances[i]);
            } else {
                assert(instances[last].grpc is Some);
            }
        }
        assert forall|i: int|
            0 <= i < instances.len() && (#[trigger] instances[i]).grpc is Some && !known.contains(
                instances[i].service_id,
            ) implies exists|k: int|
                0 <= k < t.len() && t[k] == (instances[i].service_id, grpc_url(instances[i].grpc->0)) by {
            if i < last {
                assert(s0[i] == instances[i]);
                assert((#[trigger] s0[i]).grpc is Some);
                let k = choose|k: int| 0 <= k < r.len() && r[k] == (s0[i].service_id, grpc_url(s0[i].grpc->0));
                assert(t[k] == r[k]);
            } else {
                assert(t[r.len() as int] == t.last());
            }
        }
    }
}

/// The URL a gRPC endpoint is dialled at, written out.
proof fn lemma_grpc_url_written_out(e: EndpointView)
    ensures
        grpc_url(e) == (match e.scheme {
            Some(sc) => sc,
            None => "http"@,
        }) + seq![':', '/', '/'] + (e.address + seq![':'] + crate::text::decimal(e.port as nat)),
{
}

/// One inserted endpoint: a gRPC instance not yet known, at its URL.
proof fn lemma_grpc_insert_at(known: Seq<Seq<char>>, instances: Seq<ServiceInstanceView>, k: int)
    requires
        0 <= k < grpc_targets(instances, known).len(),
    ensures
        exists|i: int|
            0 <= i < instances.len() && instances[i].grpc is Some && !known.contains(instances[i].service_id)
                && grpc_targets(instances, known)[k] == (
                instances[i].service_id,
                (match instances[i].grpc->0.scheme {
                    Some(sc) => sc,
                    None => "http"@,
                }) + seq![':', '/', '/'] + (instances[i].grpc->0.address + seq![':'] + crate::text::decimal(
                    instances[i].grpc->0.port as nat,
                )),
            ),
{
    lemma_grpc_targets_members(known, instances);
    let i = choose|i: int|
        0 <= i < instances.len() && instances[i].grpc is Some && !known.contains(instances[i].service_id)
            && #[trigger] grpc_targets(instances, known)[k] == (instances[i].service_id, grpc_url(instances[i].grpc->0));
    lemma_grpc_url_written_out(instances[i].grpc->0);
}

/// The endpoints inserted into a gRPC balancer are gRPC instances not yet
/// known, each dialled at `scheme://address:port` with its endpoint's own
/// scheme, and `http` only when the endpoint has none.
pub proof fn law_grpc_inserts_dial_endpoint_scheme(known: Seq<Seq<char>>, instances: Seq<ServiceInstanceView>)
    ensures
        forall|k: int|
            0 <= k < grpc_targets(instances, known).len() ==> exists|i: int|
                0 <= i < instances.len() && instances[i].grpc is Some && !known.contains(instances[i].service_id)
                    && #[trigger] grpc_targets(instances, known)[k] == (
                    instances[i].service_id,
                    (match instances[i].grpc->0.scheme {
                        Some(sc) => sc,
                        None => "http"@,
                    }) + seq![':', '/', '/'] + (instances[i].grpc->0.address + seq![':'] + crate::text::decimal(
                        instances[i].grpc->0.port as nat,
                    )),
                ),
{
    assert forall|k: int| 0 <= k < grpc_targets(instances, known).len() implies exists|i: int|
        0 <= i < instances.len() && instances[i].grpc is Some && !known.contains(instances[i].service_id)
            && #[trigger] grpc_targets(instances, known)[k] == (
            instances[i].service_id,
            (match instances[i].grpc->0.scheme {
                Some(sc) => sc,
                None => "http"@,
            }) + seq![':', '/', '/'] + (instances[i].grpc->0.address + seq![':'] + crate::text::decimal(
                instances[i].grpc->0.port as nat,
            )),
        ) by {
        lemma_grpc_insert_at(known, instances, k);
    }
}

/// Every gRPC instance not yet known is inserted, dialled at
/// `scheme://address:port` with its endpoint's own scheme, and `http` only
/// when the endpoint has none.
pub proof fn law_grpc_inserts_every_new_endpoint(known: Seq<Seq<char>>, instances: Seq<ServiceInstanceView>, i: int)
    requires
        0 <= i < instances.len(),
        instances[i].grpc is Some,
        !known.contains(instances[i].service_id),
    ensures
        exists|k: int|
            0 <= k < grpc_targets(instances, known).len() && grpc_targets(instances, known)[k] == (
                instances[i].service_id,
                (match instances[i].grpc->0.scheme {
                    Some(sc) => sc,
                    None => "http"@,
                }) + seq![':', '/', '/'] + (instances[i].grpc->0.address + seq![':'] + crate::text::decimal(
                    instances[i].grpc->0.port as nat,
                )),
            ),
{
    lemma_grpc_targets_members(known, instances);
    assert(instances[i].grpc is Some);
    lemma_grpc_url_written_out(instances[i].grpc->0);
}

} // verus!
