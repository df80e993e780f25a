//! Consistent hashing over a ring of virtual nodes.
use vstd::prelude::*;
use vstd::string::StringSliceAdditionalSpecFns;
use vstd::utf8::encode_utf8;
use crate::instance::{ServiceInstance, ServiceInstanceView, views};
use crate::strmap::{StrMap, lookup, upsert};
use crate::text::{decimal, push_char, push_decimal};
use super::{SelectContext, SelectContextView, Selector};
use super::canary::{first_with_id, first_index_with_id, lemma_first_with_id};

verus! {

broadcast use vstd::string::group_string_axioms;

pub open spec fn fnv_offset() -> u64 {
    0xcbf29ce484222325
}

pub open spec fn fnv_prime() -> u64 {
    0x100000001b3
}

/// FNV-1a over `bytes`, continuing from hash `start`.
pub open spec fn fnv_acc(start: u64, bytes: Seq<u8>) -> u64
    decreases bytes.len(),
{
    if bytes.len() == 0 {
        start
    } else {
        (fnv_acc(start, bytes.drop_last()) ^ (bytes.last() as u64)).wrapping_mul(fnv_prime())
    }
}

/// The avalanche finaliser applied after FNV-1a.
pub open spec fn mix64(h0: u64) -> u64 {
    let h1 = h0 ^ (h0 >> 33u64);
    let h2 = h1.wrapping_mul(0xff51afd7ed558ccd);
    let h3 = h2 ^ (h2 >> 33u64);
    let h4 = h3.wrapping_mul(0xc4ceb9fe1a85ec53);
    h4 ^ (h4 >> 33u64)
}

/// The 64-bit hash of a byte string: FNV-1a followed by the finaliser.
pub open spec fn hash_bytes(bytes: Seq<u8>) -> u64 {
    mix64(fnv_acc(fnv_offset(), bytes))
}

/// Continues FNV-1a from `start` over `bytes`.
fn fnv_continue(start: u64, bytes: &[u8]) -> (h: u64)
    ensures
        h == fnv_acc(start, bytes@),
{
    let mut h = start;
    let mut i: usize = 0;
    while i < bytes.len()
        invariant
            0 <= i <= bytes@.len(),
            h == fnv_acc(start, bytes@.take(i as int)),
        decreases bytes@.len() - i,
    {
        assert(bytes@.take(i + 1).drop_last() =~= bytes@.take(i as int));
        h = (h ^ (bytes[i] as u64)).wrapping_mul(0x100000001b3);
        i = i + 1;
    }
    assert(bytes@.take(bytes@.len() as int) =~= bytes@);
    h
}

fn mix(h0: u64) -> (h: u64)
    ensures
        h == mix64(h0),
{
    let h1 = h0 ^ (h0 >> 33u64);
    let h2 = h1.wrapping_mul(0xff51afd7ed558ccd);
    let h3 = h2 ^ (h2 >> 33u64);
    let h4 = h3.wrapping_mul(0xc4ceb9fe1a85ec53);
    h4 ^ (h4 >> 33u64)
}

/// The 64-bit hash of a string's UTF-8 bytes.
pub fn fnv1a_hash(s: &str) -> (h: u64)
    ensures
        h == hash_bytes(s.spec_bytes()),
{
    mix(fnv_continue(0xcbf29ce484222325, s.as_bytes()))
}


/// A virtual node: its hash, the position of its instance, and its number.
pub type VNode = (u64, usize, usize);

/// Ring order: by hash, then by instance position, then by virtual node number.
pub open spec fn vnode_lt(a: VNode, b: VNode) -> bool {
    ||| a.0 < b.0
    ||| (a.0 == b.0 && a.1 < b.1)
    ||| (a.0 == b.0 && a.1 == b.1 && a.2 < b.2)
}

/// The key hashed for virtual node `v` of instance `id`: `id#v<v>`.
pub open spec fn vnode_key(id: Seq<char>, v: nat) -> Seq<char> {
    id + seq!['#', 'v'] + decimal(v)
}

/// The ring position of virtual node `v` of instance `id`.
pub open spec fn vnode_hash(id: Seq<char>, v: nat) -> u64 {
    hash_bytes(encode_utf8(vnode_key(id, v)))
}

/// `t` is one of the `vn` virtual nodes of the instances `ids`.
pub open spec fn is_vnode(ids: Seq<Seq<char>>, vn: nat, t: VNode) -> bool {
    &&& t.1 < ids.len()
    &&& t.2 < vn
    &&& t.0 == vnode_hash(ids[t.1 as int], t.2 as nat)
}

/// Strictly ascending in ring order.
pub open spec fn sorted_ring(r: Seq<VNode>) -> bool {
    forall|i: int, j: int| 0 <= i < j < r.len() ==> vnode_lt(#[trigger] r[i], #[trigger] r[j])
}

/// `r` lists exactly the virtual nodes of `ids`, in ring order.
pub open spec fn ring_of(r: Seq<VNode>, ids: Seq<Seq<char>>, vn: nat) -> bool {
    &&& sorted_ring(r)
    &&& forall|i: int| 0 <= i < r.len() ==> is_vnode(ids, vn, #[trigger] r[i])
    &&& forall|t: VNode| is_vnode(ids, vn, t) ==> #[trigger] r.contains(t)
}

/// Some virtual node of `ids` hashes to `lo` or above.
pub open spec fn has_from(ids: Seq<Seq<char>>, vn: nat, lo: u64) -> bool {
    exists|t: VNode| is_vnode(ids, vn, t) && t.0 >= lo
}

/// `t` is the first virtual node at or after `lo` in ring order.
pub open spec fn is_least_from(ids: Seq<Seq<char>>, vn: nat, lo: u64, t: VNode) -> bool {
    &&& is_vnode(ids, vn, t)
    &&& t.0 >= lo
    &&& forall|u: VNode| is_vnode(ids, vn, u) && u.0 >= lo ==> !vnode_lt(u, t)
}

/// The first virtual node at or after `lo`.
pub open spec fn least_from(ids: Seq<Seq<char>>, vn: nat, lo: u64) -> VNode {
    choose|t: VNode| is_least_from(ids, vn, lo, t)
}

/// The virtual node that owns hash `target`: the first one clockwise from it,
/// wrapping round to the first of the ring; `None` on an empty ring.
pub open spec fn ring_choice(ids: Seq<Seq<char>>, vn: nat, target: u64) -> Option<VNode> {
    if has_from(ids, vn, target) {
        Some(least_from(ids, vn, target))
    } else if has_from(ids, vn, 0) {
        Some(least_from(ids, vn, 0))
    } else {
        None
    }
}

/// There is only one first virtual node at or after `lo`.
pub proof fn lemma_least_unique(ids: Seq<Seq<char>>, vn: nat, lo: u64, t: VNode)
    requires
        is_least_from(ids, vn, lo, t),
    ensures
        least_from(ids, vn, lo) == t,
{
    let c = least_from(ids, vn, lo);
    assert(is_least_from(ids, vn, lo, c));
    assert(!vnode_lt(c, t));
    assert(!vnode_lt(t, c));
}

/// In a ring, a member's position lies between the positions of its neighbours' hashes.
proof fn lemma_sorted_hashes(r: Seq<VNode>, i: int, j: int)
    requires
        sorted_ring(r),
        0 <= i <= j < r.len(),
    ensures
        r[i].0 <= r[j].0,
{
    if i < j {
        assert(vnode_lt(r[i], r[j]));
    }
}

/// The string views of a sequence of strings.
pub open spec fn string_views(s: Seq<String>) -> Seq<Seq<char>> {
    s.map_values(|x: String| x@)
}

/// The identifiers of a sequence of instances.
pub open spec fn ids_of(s: Seq<ServiceInstanceView>) -> Seq<Seq<char>> {
    s.map_values(|x: ServiceInstanceView| x.service_id)
}

/// Virtual node `v` of instance `id` placed on the ring.
fn vnode_position(id: &str, v: usize) -> (h: u64)
    ensures
        h == vnode_hash(id@, v as nat),
{
    let mut key = id.to_string();
    push_char(&mut key, '#');
    push_char(&mut key, 'v');
    push_decimal(&mut key, v as u64);
    assert(key@ =~= vnode_key(id@, v as nat));
    fnv1a_hash(key.as_str())
}

/// The first position whose node is not before `t` in ring order.
fn insert_position(ring: &Vec<VNode>, t: VNode) -> (p: usize)
    requires
        sorted_ring(ring@),
    ensures
        p <= ring@.len(),
        forall|k: int| 0 <= k < p ==> vnode_lt(#[trigger] ring@[k], t),
        forall|k: int| p <= k < ring@.len() ==> !vnode_lt(#[trigger] ring@[k], t),
{
    let mut lo: usize = 0;
    let mut hi: usize = ring.len();
    while lo < hi
        invariant
            sorted_ring(ring@),
            0 <= lo <= hi <= ring@.len(),
            forall|k: int| 0 <= k < lo ==> vnode_lt(#[trigger] ring@[k], t),
            forall|k: int| hi <= k < ring@.len() ==> !vnode_lt(#[trigger] ring@[k], t),
        decreases hi - lo,
    {
        let mid = lo + (hi - lo) / 2;
        let m = ring[mid];
        let before = m.0 < t.0 || (m.0 == t.0 && (m.1 < t.1 || (m.1 == t.1 && m.2 < t.2)));
        if before {
            assert forall|k: int| 0 <= k < mid + 1 implies vnode_lt(#[trigger] ring@[k], t) by {
                if k < mid {
                    assert(vnode_lt(ring@[k], ring@[mid as int]));
                }
            }
            lo = mid + 1;
        } else {
            assert forall|k: int| mid <= k < ring@.len() implies !vnode_lt(#[trigger] ring@[k], t) by {
                if k > mid {
                    assert(vnode_lt(ring@[mid as int], ring@[k]));
                }
            }
            hi = mid;
        }
    }
    lo
}

/// The first position whose node hashes to `target` or above.
fn hash_lower_bound(ring: &Vec<VNode>, target: u64) -> (p: usize)
    requires
        sorted_ring(ring@),
    ensures
        p <= ring@.len(),
        forall|k: int| 0 <= k < p ==> (#[trigger] ring@[k]).0 < target,
        forall|k: int| p <= k < ring@.len() ==> (#[trigger] ring@[k]).0 >= target,
{
    let mut lo: usize = 0;
    let mut hi: usize = ring.len();
    while lo < hi
        invariant
            sorted_ring(ring@),
            0 <= lo <= hi <= ring@.len(),
            forall|k: int| 0 <= k < lo ==> (#[trigger] ring@[k]).0 < target,
            forall|k: int| hi <= k < ring@.len() ==> (#[trigger] ring@[k]).0 >= target,
        decreases hi - lo,
    {
        let mid = lo + (hi - lo) / 2;
        if ring[mid].0 < target {
            assert forall|k: int| 0 <= k < mid + 1 implies (#[trigger] ring@[k]).0 < target by {
                lemma_sorted_hashes(ring@, k, mid as int);
            }
            lo = mid + 1;
        } else {
            assert forall|k: int| mid <= k < ring@.len() implies (#[trigger] ring@[k]).0 >= target by {
                lemma_sorted_hashes(ring@, mid as int, k);
            }
            hi = mid;
        }
    }
    lo
}

/// Builds the ring of `vn` virtual nodes for each of `ids`.
fn build_ring(ids: &Vec<String>, vn: usize) -> (r: Vec<VNode>)
    ensures
        ring_of(r@, string_views(ids@), vn as nat),
{
    let ghost sv = string_views(ids@);
    let mut ring: Vec<VNode> = Vec::new();
    let mut i: usize = 0;
    while i < ids.len()
        invariant
            sv == string_views(ids@),
            0 <= i <= ids@.len(),
            sorted_ring(ring@),
            forall|k: int| 0 <= k < ring@.len() ==> is_vnode(sv, vn as nat, #[trigger] ring@[k]) && ring@[k].1 < i,
            forall|t: VNode| is_vnode(sv, vn as nat, t) && t.1 < i ==> #[trigger] ring@.contains(t),
        decreases ids@.len() - i,
    {
        let mut v: usize = 0;
        while v < vn
            invariant
                sv == string_views(ids@),
                0 <= i < ids@.len(),
                0 <= v <= vn,
                sorted_ring(ring@),
                forall|k: int| 0 <= k < ring@.len() ==> is_vnode(sv, vn as nat, #[trigger] ring@[k]) && (
                    ring@[k].1 < i || (ring@[k].1 == i && ring@[k].2 < v)),
                forall|t: VNode|
                    is_vnode(sv, vn as nat, t) && (t.1 < i || (t.1 == i && t.2 < v)) ==> #[trigger] ring@.contains(t),
            decreases vn - v,
        {
            let h = vnode_position(ids[i].as_str(), v);
            let t: VNode = (h, i, v);
            assert(sv[i as int] == ids@[i as int]@);
            assert(is_vnode(sv, vn as nat, t));
            let p = insert_position(&ring, t);
            let ghost before = ring@;
            ring.insert(p, t);
            proof {
                assert(ring@ == before.insert(p as int, t));
                assert forall|a: int, b: int| 0 <= a < b < ring@.len() implies vnode_lt(
                    #[trigger] ring@[a],
                    #[trigger] ring@[b],
                ) by {
                    if b < p {
                        assert(vnode_lt(before[a], before[b]));
                    } else if b == p {
                        assert(vnode_lt(before[a], t));
                    } else if a < p {
                        assert(vnode_lt(before[a], before[b - 1]));
                    } else if a == p {
                        let u = before[b - 1];
                        assert(!vnode_lt(u, t));
                        assert(u.1 < i || (u.1 == i && u.2 < v));
                    } else {
                        assert(vnode_lt(before[a - 1], before[b - 1]));
                    }
                }
                assert forall|k: int| 0 <= k < ring@.len() implies is_vnode(
                    sv,
                    vn as nat,
                    #[trigger] ring@[k],
                ) && (ring@[k].1 < i || (ring@[k].1 == i && ring@[k].2 < v + 1)) by {
                    if k < p {
                        assert(ring@[k] == before[k]);
                    } else if k > p {
                        assert(ring@[k] == before[k - 1]);
                    }
                }
                assert forall|u: VNode|
                    is_vnode(sv, vn as nat, u) && (u.1 < i || (u.1 == i && u.2 < v + 1)) implies #[trigger] ring@.contains(
                    u,
                ) by {
                    if u == t {
                        assert(ring@[p as int] == t);
                    } else {
                        assert(before.contains(u));
                        let k = choose|k: int| 0 <= k < before.len() && before[k] == u;
                        if k < p {
                            assert(ring@[k] == u);
                        } else {
                            assert(ring@[k + 1] == u);
                        }
                    }
                }
            }
            v = v + 1;
        }
        i = i + 1;
    }
    ring
}


/// The ring position that `ring[p]` is chosen for `target`: the first at or
/// after it, else the first of the ring.
proof fn lemma_choice_from_ring(r: Seq<VNode>, ids: Seq<Seq<char>>, vn: nat, target: u64, p: int)
    requires
        ring_of(r, ids, vn),
        0 <= p <= r.len(),
        forall|k: int| 0 <= k < p ==> (#[trigger] r[k]).0 < target,
        forall|k: int| p <= k < r.len() ==> (#[trigger] r[k]).0 >= target,
    ensures
        p < r.len() ==> ring_choice(ids, vn, target) == Some(r[p]),
        p == r.len() && r.len() > 0 ==> ring_choice(ids, vn, target) == Some(r[0]),
        r.len() == 0 ==> ring_choice(ids, vn, target) is None,
{
    if p < r.len() {
        assert(is_vnode(ids, vn, r[p]));
        assert forall|u: VNode| is_vnode(ids, vn, u) && u.0 >= target implies !vnode_lt(u, r[p]) by {
            assert(r.contains(u));
            let m = choose|m: int| 0 <= m < r.len() && r[m] == u;
            if m < p {
                assert(r[m].0 < target);
            } else if m > p {
                assert(vnode_lt(r[p], r[m]));
            }
        }
        assert(is_least_from(ids, vn, target, r[p]));
        lemma_least_unique(ids, vn, target, r[p]);
    } else {
        assert forall|u: VNode| is_vnode(ids, vn, u) implies u.0 < target by {
            assert(r.contains(u));
            let m = choose|m: int| 0 <= m < r.len() && r[m] == u;
            assert(r[m].0 < target);
        }
        if r.len() > 0 {
            assert(is_vnode(ids, vn, r[0]));
            assert forall|u: VNode| is_vnode(ids, vn, u) && u.0 >= 0 implies !vnode_lt(u, r[0]) by {
                assert(r.contains(u));
                let m = choose|m: int| 0 <= m < r.len() && r[m] == u;
                if m > 0 {
                    assert(vnode_lt(r[0], r[m]));
                }
            }
            assert(is_least_from(ids, vn, 0, r[0]));
            lemma_least_unique(ids, vn, 0, r[0]);
        } else {
            assert forall|u: VNode| is_vnode(ids, vn, u) implies false by {
                assert(r.contains(u));
            }
        }
    }
}

/// A cached ring: the topology fingerprint it was built for, its virtual node
/// count, the instance identifiers it was built from, and the ring itself.
#[derive(Debug)]
pub struct RingCache {
    fingerprint: u64,
    vnodes: usize,
    ids: Vec<String>,
    ring: Vec<VNode>,
}

/// What a cached ring stands for.
pub struct RingCacheView {
    pub fingerprint: u64,
    pub vnodes: usize,
    pub ids: Seq<Seq<char>>,
}

impl View for RingCache {
    type V = RingCacheView;

    closed spec fn view(&self) -> RingCacheView {
        RingCacheView { fingerprint: self.fingerprint, vnodes: self.vnodes, ids: string_views(self.ids@) }
    }
}

impl RingCache {
    #[verifier::type_invariant]
    closed spec fn well_formed(&self) -> bool {
        ring_of(self.ring@, string_views(self.ids@), self.vnodes as nat)
    }

    /// The ring for `ids` with `vn` virtual nodes each.
    fn build(ids: Vec<String>, fingerprint: u64, vn: usize) -> (r: Self)
        ensures
            r@ == (RingCacheView { fingerprint, vnodes: vn, ids: string_views(ids@) }),
    {
        let ring = build_ring(&ids, vn);
        RingCache { fingerprint, vnodes: vn, ids, ring }
    }

    /// The owner of hash `target`, as a position in the identifier list.
    fn owner(&self, target: u64) -> (r: Option<usize>)
        ensures
            match ring_choice(self@.ids, self@.vnodes as nat, target) {
                Some(t) => r == Some(t.1) && t.1 < self@.ids.len(),
                None => r is None,
            },
    {
        proof {
            use_type_invariant(self);
        }
        let p = hash_lower_bound(&self.ring, target);
        proof {
            lemma_choice_from_ring(self.ring@, string_views(self.ids@), self.vnodes as nat, target, p as int);
        }
        if p < self.ring.len() {
            assert(is_vnode(string_views(self.ids@), self.vnodes as nat, self.ring@[p as int]));
            Some(self.ring[p].1)
        } else if self.ring.len() > 0 {
            assert(is_vnode(string_views(self.ids@), self.vnodes as nat, self.ring@[0]));
            Some(self.ring[0].1)
        } else {
            None
        }
    }

    /// Whether the ring was built from exactly the identifiers of `instances`.
    fn same_ids(&self, instances: &[ServiceInstance]) -> (r: bool)
        ensures
            r == (self@.ids == ids_of(views(instances@))),
    {
        let ghost want = ids_of(views(instances@));
        if self.ids.len() != instances.len() {
            assert(self@.ids.len() != want.len());
            return false;
        }
        let mut i: usize = 0;
        while i < instances.len()
            invariant
                self.ids@.len() == instances@.len(),
                want == ids_of(views(instances@)),
                0 <= i <= instances@.len(),
                forall|j: int| 0 <= j < i ==> #[trigger] self@.ids[j] == want[j],
            decreases instances@.len() - i,
        {
            if !crate::text::str_eq(self.ids[i].as_str(), instances[i].service_id.as_str()) {
                assert(self@.ids[i as int] != want[i as int]);
                return false;
            }
            i = i + 1;
        }
        assert(self@.ids =~= want);
        true
    }

    /// The identifier at position `i`.
    fn id_at(&self, i: usize) -> (r: &String)
        requires
            i < self@.ids.len(),
        ensures
            r@ == self@.ids[i as int],
    {
        &self.ids[i]
    }
}

/// FNV-1a (without the finaliser) over the identifiers' bytes, one after the other.
pub open spec fn fingerprint(ids: Seq<Seq<char>>) -> u64
    decreases ids.len(),
{
    if ids.len() == 0 {
        fnv_offset()
    } else {
        fnv_acc(fingerprint(ids.drop_last()), encode_utf8(ids.last()))
    }
}

/// The topology fingerprint of `instances`.
pub fn compute_fingerprint(instances: &[ServiceInstance]) -> (h: u64)
    ensures
        h == fingerprint(ids_of(views(instances@))),
{
    let ghost ids = ids_of(views(instances@));
    let mut h: u64 = 0xcbf29ce484222325;
    let mut i: usize = 0;
    while i < instances.len()
        invariant
            ids == ids_of(views(instances@)),
            0 <= i <= instances@.len(),
            h == fingerprint(ids.take(i as int)),
        decreases instances@.len() - i,
    {
        assert(ids.take(i + 1).drop_last() =~= ids.take(i as int));
        assert(ids.take(i + 1).last() == instances@[i as int].service_id@);
        h = fnv_continue(h, instances[i].service_id.as_str().as_bytes());
        i = i + 1;
    }
    assert(ids.take(instances@.len() as int) =~= ids);
    h
}

/// The key a context routes by: its routing key, else the client address,
/// else the service name.
pub open spec fn routing_key(ctx: SelectContextView) -> Seq<char> {
    match ctx.key {
        Some(k) => k,
        None => match ctx.client_ip {
            Some(c) => c,
            None => ctx.service_name,
        },
    }
}

/// What a consistent-hash selector holds: its virtual node count and the
/// cached rings per service name.
pub struct ConsistentHashState {
    pub virtual_nodes: usize,
    pub rings: Seq<(Seq<char>, RingCacheView)>,
}

/// The pick among `instances` for ring owner `owner` on the ring of `ids`: the
/// first instance whose identifier is the owner's, else the first instance.
pub open spec fn pick_for(owner: Option<VNode>, ids: Seq<Seq<char>>, instances: Seq<ServiceInstanceView>) -> Option<int> {
    match owner {
        Some(t) => match first_with_id(instances, ids[t.1 as int]) {
            Some(j) => Some(j),
            None => Some(0),
        },
        None => Some(0),
    }
}

/// The pick among `instances` for the owner of `target` on the ring of `ids`.
pub open spec fn owner_pick(ids: Seq<Seq<char>>, vn: nat, target: u64, instances: Seq<ServiceInstanceView>) -> Option<int> {
    pick_for(ring_choice(ids, vn, target), ids, instances)
}

/// One consistent-hash selection. With two or more candidates the service's
/// cached ring is reused while the topology is unchanged (same fingerprint and
/// same identifiers in the same order), and is rebuilt from the candidates
/// otherwise.
pub open spec fn ch_step(state: ConsistentHashState, ctx: SelectContextView, instances: Seq<ServiceInstanceView>) -> (
    ConsistentHashState,
    Option<int>,
) {
    if instances.len() == 0 {
        (state, None)
    } else if instances.len() == 1 {
        (state, Some(0))
    } else {
        let target = hash_bytes(encode_utf8(routing_key(ctx)));
        let ids = ids_of(instances);
        let fp = fingerprint(ids);
        let vn = state.virtual_nodes;
        match lookup(state.rings, ctx.service_name) {
            Some(c) if c.fingerprint == fp && c.ids == ids => (state, owner_pick(c.ids, vn as nat, target, instances)),
            _ => (
                ConsistentHashState {
                    virtual_nodes: vn,
                    rings: upsert(state.rings, ctx.service_name, RingCacheView { fingerprint: fp, vnodes: vn, ids }),
                },
                owner_pick(ids, vn as nat, target, instances),
            ),
        }
    }
}

/// Consistent hashing with virtual nodes (100 per instance by default): a
/// request key maps to the first virtual node clockwise from its hash, so
/// adding or removing an instance moves only the keys next to its nodes.
#[derive(Debug)]
pub struct ConsistentHashSelector {
    virtual_nodes: usize,
    rings: StrMap<RingCache>,
}

impl ConsistentHashSelector {
    pub const DEFAULT_VIRTUAL_NODES: usize = 100;

    #[verifier::type_invariant]
    closed spec fn well_formed(&self) -> bool {
        &&& self.virtual_nodes >= 1
        &&& forall|i: int| 0 <= i < self.rings@.len() ==> (#[trigger] self.rings@[i]).1.vnodes == self.virtual_nodes
    }

    /// Virtual node count and cached rings.
    pub closed spec fn state_spec(&self) -> ConsistentHashState {
        ConsistentHashState { virtual_nodes: self.virtual_nodes, rings: self.rings@ }
    }

    /// Every selector caches at most one ring per service name.
    pub proof fn lemma_rings_unique(self)
        ensures
            crate::strmap::unique_keys(self.state_spec().rings),
    {
        self.rings.lemma_keys_unique();
    }

    /// A selector with the default number of virtual nodes.
    pub fn new() -> (r: Self)
        ensures
            r.state_spec() == (ConsistentHashState { virtual_nodes: 100, rings: Seq::empty() }),
    {
        ConsistentHashSelector::with_virtual_nodes(ConsistentHashSelector::DEFAULT_VIRTUAL_NODES)
    }

    /// A selector with `virtual_nodes` virtual nodes per instance (at least one).
    pub fn with_virtual_nodes(virtual_nodes: usize) -> (r: Self)
        ensures
            r.state_spec() == (ConsistentHashState {
                virtual_nodes: if virtual_nodes < 1 { 1 } else { virtual_nodes },
                rings: Seq::empty(),
            }),
    {
        let vn = if virtual_nodes < 1 { 1 } else { virtual_nodes };
        ConsistentHashSelector { virtual_nodes: vn, rings: StrMap::new() }
    }
}

impl Selector for ConsistentHashSelector {
    open spec fn select_rel(
        self,
        next: Self,
        ctx: SelectContextView,
        instances: Seq<ServiceInstanceView>,
        pick: Option<int>,
    ) -> bool {
        (next.state_spec(), pick) == ch_step(self.state_spec(), ctx, instances)
    }

    fn select_index(&mut self, ctx: &SelectContext, instances: &[ServiceInstance]) -> (r: Option<usize>) {
        proof {
            use_type_invariant(&*self);
        }
        let len = instances.len();
        if len == 0 {
            return None;
        }
        if len == 1 {
            return Some(0);
        }
        let key: &str = match &ctx.key {
            Some(k) => k.as_str(),
            None => match &ctx.client_ip {
                Some(c) => c.as_str(),
                None => ctx.service_name.as_str(),
            },
        };
        assert(key@ == routing_key(ctx@));
        let target = fnv1a_hash(key);
        let fp = compute_fingerprint(instances);
        let ghost ids = ids_of(views(instances@));
        let ghost vn = self.virtual_nodes;
        let hit = match self.rings.get(ctx.service_name.as_str()) {
            Some(c) => c.fingerprint == fp && c.same_ids(instances),
            None => false,
        };
        if !hit {
            let mut id_list: Vec<String> = Vec::new();
            let mut i: usize = 0;
            while i < len
                invariant
                    len == instances@.len(),
                    ids == ids_of(views(instances@)),
                    0 <= i <= len,
                    string_views(id_list@) == ids.take(i as int),
                decreases len - i,
            {
                let ghost before = id_list@;
                id_list.push(instances[i].service_id.clone());
                assert(ids[i as int] == views(instances@)[i as int].service_id);
                assert(string_views(id_list@) =~= string_views(before).push(ids[i as int]));
                assert(string_views(id_list@) =~= ids.take(i + 1));
                i = i + 1;
            }
            assert(ids.take(len as int) =~= ids);
            let cache = RingCache::build(id_list, fp, self.virtual_nodes);
            let ghost before = self.rings@;
            proof {
                self.rings.lemma_keys_unique();
            }
            let mut rings: StrMap<RingCache> = StrMap::new();
            std::mem::swap(&mut rings, &mut self.rings);
            rings.insert(ctx.service_name.clone(), cache);
            self.rings = rings;
            proof {
                crate::strmap::lemma_upsert(before, ctx.service_name@, cache@);
                assert forall|i: int| 0 <= i < self.rings@.len() implies (#[trigger] self.rings@[i]).1.vnodes
                    == self.virtual_nodes by {
                    if crate::strmap::has_key(before, ctx.service_name@) {
                        let p = crate::strmap::key_pos(before, ctx.service_name@);
                        if i != p {
                            assert(self.rings@[i] == before[i]);
                        }
                    } else if i < before.len() {
                        assert(self.rings@[i] == before[i]);
                    }
                }
            }
        }
        let cache = match self.rings.get(ctx.service_name.as_str()) {
            Some(c) => c,
            None => {
                proof {
                    crate::strmap::lemma_upsert(old(self).rings@, ctx.service_name@, RingCacheView { fingerprint: fp, vnodes: vn, ids });
                }
                return Some(0);
            },
        };
        proof {
            if !hit {
                crate::strmap::lemma_upsert(old(self).rings@, ctx.service_name@, RingCacheView { fingerprint: fp, vnodes: vn, ids });
            }
            let _ = lookup(self.rings@, ctx.service_name@);
        }
        let ghost cv = cache@;
        proof {
            self.rings.lemma_keys_unique();
        }
        assert(cv.vnodes == vn) by {
            let p = crate::strmap::key_pos(self.rings@, ctx.service_name@);
            assert(self.rings@[p].1.vnodes == self.virtual_nodes);
        }
        match cache.owner(target) {
            Some(p) => {
                let id = cache.id_at(p);
                let found = first_index_with_id(instances, id.as_str());
                match found {
                    Some(j) => Some(j),
                    None => Some(0),
                }
            },
            None => Some(0),
        }
    }
}


/// Consistent hashing is sticky: selecting again with the same context and
/// candidates picks the same instance and leaves the cache as it was.
pub proof fn law_consistent_hash_sticky(state: ConsistentHashState, ctx: SelectContextView, instances: Seq<ServiceInstanceView>)
    requires
        crate::strmap::unique_keys(state.rings),
    ensures
        ({
            let (s1, p1) = ch_step(state, ctx, instances);
            let (s2, p2) = ch_step(s1, ctx, instances);
            p2 == p1 && s2 == s1
        }),
{
    if instances.len() >= 2 {
        let ids = ids_of(instances);
        let fp = fingerprint(ids);
        let entry = RingCacheView { fingerprint: fp, vnodes: state.virtual_nodes, ids };
        crate::strmap::lemma_upsert(state.rings, ctx.service_name, entry);
    }
}


/// Below any virtual node at or after `lo` there is a first one.
proof fn lemma_least_exists(ids: Seq<Seq<char>>, vn: nat, lo: u64, w: VNode)
    requires
        is_vnode(ids, vn, w),
        w.0 >= lo,
    ensures
        exists|t: VNode| is_least_from(ids, vn, lo, t),
    decreases w.0, w.1, w.2,
{
    if !is_least_from(ids, vn, lo, w) {
        let u = choose|u: VNode| is_vnode(ids, vn, u) && u.0 >= lo && vnode_lt(u, w);
        lemma_least_exists(ids, vn, lo, u);
    }
}

/// The owner that `ring_choice` names is a virtual node of the ring, the first
/// at or after the target when there is one, else the first of the ring.
proof fn lemma_choice_valid(ids: Seq<Seq<char>>, vn: nat, target: u64)
    ensures
        ring_choice(ids, vn, target) is None <==> !has_from(ids, vn, 0),
        ring_choice(ids, vn, target) matches Some(t) ==> is_vnode(ids, vn, t),
        has_from(ids, vn, target) ==> is_least_from(ids, vn, target, least_from(ids, vn, target)),
        has_from(ids, vn, 0) ==> is_least_from(ids, vn, 0, least_from(ids, vn, 0)),
{
    if has_from(ids, vn, target) {
        let w = choose|w: VNode| is_vnode(ids, vn, w) && w.0 >= target;
        lemma_least_exists(ids, vn, target, w);
        assert(w.0 >= 0);
    }
    if has_from(ids, vn, 0) {
        let w = choose|w: VNode| is_vnode(ids, vn, w) && w.0 >= 0;
        lemma_least_exists(ids, vn, 0, w);
    }
}

/// Adding one identifier to a ring: the owner of a hash is either one of the
/// new identifier's virtual nodes, or the owner it had before.
proof fn lemma_choice_grow(ids: Seq<Seq<char>>, x: Seq<char>, vn: nat, target: u64)
    ensures
        match ring_choice(ids.push(x), vn, target) {
            Some(t) => t.1 == ids.len() || (t.1 < ids.len() && ring_choice(ids, vn, target) == Some(t)),
            None => ring_choice(ids, vn, target) is None,
        },
{
    let jd = ids.push(x);
    assert forall|t: VNode| is_vnode(ids, vn, t) implies is_vnode(jd, vn, t) by {
        assert(jd[t.1 as int] == ids[t.1 as int]);
    }
    assert forall|t: VNode| is_vnode(jd, vn, t) && t.1 < ids.len() implies is_vnode(ids, vn, t) by {
        assert(jd[t.1 as int] == ids[t.1 as int]);
    }
    lemma_choice_valid(jd, vn, target);
    lemma_choice_valid(ids, vn, target);
    if has_from(jd, vn, target) {
        let t = least_from(jd, vn, target);
        if t.1 < ids.len() {
            assert(is_vnode(ids, vn, t));
            assert(has_from(ids, vn, target));
            assert(is_least_from(ids, vn, target, t));
            lemma_least_unique(ids, vn, target, t);
        }
    } else if has_from(jd, vn, 0) {
        assert(!has_from(ids, vn, target)) by {
            if has_from(ids, vn, target) {
                let w = choose|w: VNode| is_vnode(ids, vn, w) && w.0 >= target;
                assert(is_vnode(jd, vn, w));
            }
        }
        let t = least_from(jd, vn, 0);
        if t.1 < ids.len() {
            assert(is_vnode(ids, vn, t));
            assert(has_from(ids, vn, 0));
            assert(is_least_from(ids, vn, 0, t));
            lemma_least_unique(ids, vn, 0, t);
        }
    } else {
        assert(!has_from(ids, vn, 0)) by {
            if has_from(ids, vn, 0) {
                let w = choose|w: VNode| is_vnode(ids, vn, w) && w.0 >= 0;
                assert(is_vnode(jd, vn, w));
            }
        }
    }
}

/// The hash a context's routing key is placed at.
pub open spec fn target_of(ctx: SelectContextView) -> u64 {
    hash_bytes(encode_utf8(routing_key(ctx)))
}

/// The pick does not depend on earlier calls: with two or more candidates it
/// is the owner on the ring of exactly these candidates, whatever rings the
/// selector has cached, so it equals what a fresh selector picks.
pub proof fn law_consistent_hash_history_free(state: ConsistentHashState, ctx: SelectContextView, instances: Seq<ServiceInstanceView>)
    ensures
        instances.len() >= 2 ==> ch_step(state, ctx, instances).1 == owner_pick(
            ids_of(instances),
            state.virtual_nodes as nat,
            target_of(ctx),
            instances,
        ),
        ch_step(state, ctx, instances).1 == ch_step(
            ConsistentHashState { virtual_nodes: state.virtual_nodes, rings: Seq::empty() },
            ctx,
            instances,
        ).1,
{
    let empty = Seq::<(Seq<char>, RingCacheView)>::empty();
    assert(!crate::strmap::has_key(empty, ctx.service_name));
}

/// The routing key decides the pick: a context routes by its key, without a key
/// by its client address, and without either by its service name. Two contexts
/// with the same routing key pick the same candidate, for any cached state.
pub proof fn law_consistent_hash_key_fallback(
    s1: ConsistentHashState,
    s2: ConsistentHashState,
    ctx1: SelectContextView,
    ctx2: SelectContextView,
    instances: Seq<ServiceInstanceView>,
)
    requires
        s1.virtual_nodes == s2.virtual_nodes,
    ensures
        routing_key(ctx1) == routing_key(ctx2) ==> ch_step(s1, ctx1, instances).1 == ch_step(s2, ctx2, instances).1,
        ctx1.key is Some && ctx2.key == ctx1.key ==> ch_step(s1, ctx1, instances).1 == ch_step(s2, ctx2, instances).1,
        ctx1.key is None && ctx1.client_ip is Some && ctx2.key == ctx1.client_ip ==> ch_step(s1, ctx1, instances).1
            == ch_step(s2, ctx2, instances).1,
        ctx1.key is None && ctx1.client_ip is None && ctx2.key == Some(ctx1.service_name) ==> ch_step(
            s1,
            ctx1,
            instances,
        ).1 == ch_step(s2, ctx2, instances).1,
{
    law_consistent_hash_history_free(s1, ctx1, instances);
    law_consistent_hash_history_free(s2, ctx2, instances);
}

/// The pick among `instances` as the number of candidates decides it.
pub open spec fn pick_of(vn: nat, target: u64, instances: Seq<ServiceInstanceView>) -> Option<int> {
    if instances.len() == 0 {
        None
    } else if instances.len() == 1 {
        Some(0)
    } else {
        owner_pick(ids_of(instances), vn, target, instances)
    }
}

/// Picks for two owners related as when `n` is appended to the candidates.
proof fn lemma_pick_for_grow(
    ci: Option<VNode>,
    cj: Option<VNode>,
    instances: Seq<ServiceInstanceView>,
    n: ServiceInstanceView,
)
    requires
        instances.len() >= 1,
        ci matches Some(t) ==> t.1 < instances.len(),
        match cj {
            Some(t) => t.1 == instances.len() || (t.1 < instances.len() && ci == Some(t)),
            None => ci is None,
        },
    ensures
        ({
            let joined = instances.push(n);
            let pj = pick_for(cj, ids_of(joined), joined);
            let pi = if instances.len() == 1 { Some(0int) } else { pick_for(ci, ids_of(instances), instances) };
            pi matches Some(i) && pj matches Some(j) && 0 <= i < instances.len() && 0 <= j < joined.len() && (
            joined[j].service_id == instances[i].service_id || joined[j].service_id == n.service_id)
        }),
{
    let joined = instances.push(n);
    let ids = ids_of(instances);
    let jids = ids_of(joined);
    assert(jids =~= ids.push(n.service_id));
    if let Some(t) = ci {
        lemma_first_with_id(instances, ids[t.1 as int]);
    }
    match cj {
        Some(t) => {
            let k = t.1 as int;
            let id = jids[k];
            assert(joined[k].service_id == id);
            lemma_first_with_id(joined, id);
            let j = first_with_id(joined, id)->0;
            assert(pick_for(cj, jids, joined) == Some(j));
            assert(joined[j].service_id == id);
            if k < ids.len() {
                assert(ids[k] == id);
                assert(instances[k].service_id == id);
                if instances.len() >= 2 {
                    lemma_first_with_id(instances, id);
                    let i = first_with_id(instances, id)->0;
                    assert(pick_for(ci, ids, instances) == Some(i));
                    assert(instances[i].service_id == id);
                } else {
                    assert(k == 0);
                }
            } else {
                assert(id == n.service_id);
            }
        },
        None => {
            assert(joined[0] == instances[0]);
            if instances.len() >= 2 {
                assert(pick_for(ci, ids, instances) == Some(0int));
            }
        },
    }
}

/// Appending `n` to the candidates: the new pick has the old pick's
/// identifier or `n`'s.
proof fn lemma_pick_grow(vn: nat, target: u64, instances: Seq<ServiceInstanceView>, n: ServiceInstanceView)
    requires
        instances.len() >= 1,
    ensures
        ({
            let joined = instances.push(n);
            pick_of(vn, target, instances) matches Some(i) && pick_of(vn, target, joined) matches Some(j) && 0 <= i
                < instances.len() && 0 <= j < joined.len() && (joined[j].service_id == instances[i].service_id
                || joined[j].service_id == n.service_id)
        }),
{
    let joined = instances.push(n);
    let ids = ids_of(instances);
    let jids = ids_of(joined);
    assert(jids =~= ids.push(n.service_id));
    lemma_choice_grow(ids, n.service_id, vn, target);
    lemma_choice_valid(ids, vn, target);
    let ci = ring_choice(ids, vn, target);
    let cj = ring_choice(jids, vn, target);
    lemma_pick_for_grow(ci, cj, instances, n);
}

/// Adding a candidate only moves keys onto it: after appending `n` to the
/// candidates, a context picks either the instance it picked before (by
/// identifier) or `n`, for any cached states.
pub proof fn law_consistent_hash_adding_node(
    s1: ConsistentHashState,
    s2: ConsistentHashState,
    ctx: SelectContextView,
    instances: Seq<ServiceInstanceView>,
    n: ServiceInstanceView,
)
    requires
        s1.virtual_nodes == s2.virtual_nodes,
        instances.len() >= 1,
    ensures
        ({
            let joined = instances.push(n);
            let p1 = ch_step(s1, ctx, instances).1;
            let p2 = ch_step(s2, ctx, joined).1;
            p1 matches Some(i) && p2 matches Some(j) && 0 <= i < instances.len() && 0 <= j < joined.len() && (
            joined[j].service_id == instances[i].service_id || joined[j].service_id == n.service_id)
        }),
{
    let joined = instances.push(n);
    let vn = s1.virtual_nodes as nat;
    law_consistent_hash_history_free(s1, ctx, instances);
    law_consistent_hash_history_free(s2, ctx, joined);
    assert(ch_step(s1, ctx, instances).1 == pick_of(vn, target_of(ctx), instances));
    assert(ch_step(s2, ctx, joined).1 == pick_of(vn, target_of(ctx), joined));
    lemma_pick_grow(vn, target_of(ctx), instances, n);
}

impl Default for ConsistentHashSelector {
    fn default() -> (r: Self)
        ensures
            r.state_spec() == (ConsistentHashState { virtual_nodes: 100, rings: Seq::empty() }),
    {
        ConsistentHashSelector::new()
    }
}

} // verus!
