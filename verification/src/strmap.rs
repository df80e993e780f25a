//! A small string-keyed map with insertion-ordered entries.
//!
//! Its view is the ordered sequence of `(key, value)` pairs, with no key twice;
//! `lookup`, `upsert` and `remove_key` give the map reading of that sequence.
use vstd::prelude::*;
use crate::text::str_eq;
use crate::instance::Endpoint;

verus! {

/// No key occurs twice.
pub open spec fn unique_keys<V>(s: Seq<(Seq<char>, V)>) -> bool {
    forall|i: int, j: int|
        0 <= i < s.len() && 0 <= j < s.len() && i != j ==> #[trigger] s[i].0 != #[trigger] s[j].0
}

/// Some entry has key `k`.
pub open spec fn has_key<V>(s: Seq<(Seq<char>, V)>, k: Seq<char>) -> bool {
    exists|i: int| 0 <= i < s.len() && #[trigger] s[i].0 == k
}

/// The position of an entry with key `k` (meaningful when `has_key`).
pub open spec fn key_pos<V>(s: Seq<(Seq<char>, V)>, k: Seq<char>) -> int {
    choose|i: int| 0 <= i < s.len() && #[trigger] s[i].0 == k
}

/// The value stored under `k`, if any.
pub open spec fn lookup<V>(s: Seq<(Seq<char>, V)>, k: Seq<char>) -> Option<V> {
    if has_key(s, k) {
        Some(s[key_pos(s, k)].1)
    } else {
        None
    }
}

/// Stores `v` under `k`: the entry keeps its place when `k` is present, else it is appended.
pub open spec fn upsert<V>(s: Seq<(Seq<char>, V)>, k: Seq<char>, v: V) -> Seq<(Seq<char>, V)> {
    if has_key(s, k) {
        s.update(key_pos(s, k), (k, v))
    } else {
        s.push((k, v))
    }
}

/// Drops the entry with key `k`, keeping the order of the others.
pub open spec fn remove_key<V>(s: Seq<(Seq<char>, V)>, k: Seq<char>) -> Seq<(Seq<char>, V)> {
    if has_key(s, k) {
        s.remove(key_pos(s, k))
    } else {
        s
    }
}

/// With unique keys, the entry holding `k` is the one at `key_pos`.
pub proof fn lemma_key_pos_unique<V>(s: Seq<(Seq<char>, V)>, k: Seq<char>, i: int)
    requires
        unique_keys(s),
        0 <= i < s.len(),
        s[i].0 == k,
    ensures
        has_key(s, k),
        key_pos(s, k) == i,
        lookup(s, k) == Some(s[i].1),
{
    assert(has_key(s, k));
    let p = key_pos(s, k);
    assert(s[p].0 == k);
}

/// `upsert` keeps keys unique, and reads back what it stored.
pub proof fn lemma_upsert<V>(s: Seq<(Seq<char>, V)>, k: Seq<char>, v: V)
    requires
        unique_keys(s),
    ensures
        unique_keys(upsert(s, k, v)),
        lookup(upsert(s, k, v), k) == Some(v),
        forall|k2: Seq<char>| k2 != k ==> #[trigger] lookup(upsert(s, k, v), k2) == lookup(s, k2),
{
    let t = upsert(s, k, v);
    if has_key(s, k) {
        let p = key_pos(s, k);
        assert(unique_keys(t));
        lemma_key_pos_unique(t, k, p);
    } else {
        assert(unique_keys(t));
        lemma_key_pos_unique(t, k, s.len() as int);
    }
    assert forall|k2: Seq<char>| k2 != k implies #[trigger] lookup(t, k2) == lookup(s, k2) by {
        if has_key(s, k2) {
            let q = key_pos(s, k2);
            lemma_key_pos_unique(t, k2, q);
        } else {
            if has_key(t, k2) {
                let q = key_pos(t, k2);
                assert(s[q].0 == k2);
            }
        }
    }
}

/// Storing twice under one key is storing the second value.
pub proof fn lemma_upsert_twice<V>(s: Seq<(Seq<char>, V)>, k: Seq<char>, v1: V, v2: V)
    requires
        unique_keys(s),
    ensures
        upsert(upsert(s, k, v1), k, v2) == upsert(s, k, v2),
{
    lemma_upsert(s, k, v1);
    let t = upsert(s, k, v1);
    if has_key(s, k) {
        let p = key_pos(s, k);
        lemma_key_pos_unique(t, k, p);
        assert(upsert(t, k, v2) =~= upsert(s, k, v2));
    } else {
        lemma_key_pos_unique(t, k, s.len() as int);
        assert(upsert(t, k, v2) =~= upsert(s, k, v2));
    }
}

/// `remove_key` keeps keys unique, forgets `k`, and keeps every other key.
pub proof fn lemma_remove_key<V>(s: Seq<(Seq<char>, V)>, k: Seq<char>)
    requires
        unique_keys(s),
    ensures
        unique_keys(remove_key(s, k)),
        lookup(remove_key(s, k), k) is None,
        forall|k2: Seq<char>| k2 != k ==> #[trigger] lookup(remove_key(s, k), k2) == lookup(s, k2),
{
    let t = remove_key(s, k);
    if has_key(s, k) {
        let p = key_pos(s, k);
        assert forall|i: int, j: int|
            0 <= i < t.len() && 0 <= j < t.len() && i != j implies #[trigger] t[i].0
            != #[trigger] t[j].0 by {
            let si = if i < p { i } else { i + 1 };
            let sj = if j < p { j } else { j + 1 };
            assert(t[i] == s[si]);
            assert(t[j] == s[sj]);
        }
        if has_key(t, k) {
            let q = key_pos(t, k);
            let sq = if q < p { q } else { q + 1 };
            assert(t[q] == s[sq]);
        }
        assert forall|k2: Seq<char>| k2 != k implies #[trigger] lookup(t, k2) == lookup(s, k2) by {
            if has_key(s, k2) {
                let q = key_pos(s, k2);
                let tq = if q < p { q } else { q - 1 };
                assert(t[tq] == s[q]);
                lemma_key_pos_unique(t, k2, tq);
            } else if has_key(t, k2) {
                let q = key_pos(t, k2);
                let sq = if q < p { q } else { q + 1 };
                assert(t[q] == s[sq]);
            }
        }
    }
}

/// Each entry taken by its view.
pub open spec fn entry_views<V: View>(s: Seq<(String, V)>) -> Seq<(Seq<char>, V::V)> {
    s.map_values(|p: (String, V)| (p.0@, p.1@))
}

/// An insertion-ordered map from strings to `V`.
#[derive(Debug)]
pub struct StrMap<V: View> {
    entries: Vec<(String, V)>,
}

impl<V: View> View for StrMap<V> {
    type V = Seq<(Seq<char>, V::V)>;

    open spec fn view(&self) -> Seq<(Seq<char>, V::V)> {
        self.pairs()
    }
}

impl<V: View> StrMap<V> {
    /// The entries, in order, each key taken by its characters. (Every map
    /// holds each key once; see `lemma_keys_unique`.)
    pub closed spec fn pairs(&self) -> Seq<(Seq<char>, V::V)> {
        let e = entry_views(self.entries@);
        if unique_keys(e) {
            e
        } else {
            Seq::empty()
        }
    }

    #[verifier::type_invariant]
    closed spec fn keys_are_unique(&self) -> bool {
        unique_keys(entry_views(self.entries@))
    }

    /// No key occurs twice in a map.
    pub proof fn lemma_keys_unique(self)
        ensures
            unique_keys(self@),
    {
    }

    /// The map reading of the entries.
    pub open spec fn get_spec(&self, k: Seq<char>) -> Option<V::V> {
        lookup(self.pairs(), k)
    }

    /// An empty map.
    pub fn new() -> (m: Self)
        ensures
            m.pairs() == Seq::<(Seq<char>, V::V)>::empty(),
    {
        let m = StrMap { entries: Vec::new() };
        assert(m.pairs() =~= Seq::<(Seq<char>, V::V)>::empty());
        m
    }

    /// Number of entries.
    pub fn len(&self) -> (n: usize)
        ensures
            n == self.pairs().len(),
            unique_keys(self.pairs()),
    {
        proof {
            use_type_invariant(self);
        }
        self.entries.len()
    }

    /// The key of the `i`-th entry.
    pub fn key_at(&self, i: usize) -> (k: &String)
        requires
            i < self.pairs().len(),
        ensures
            k@ == self.pairs()[i as int].0,
    {
        &self.entries[i].0
    }

    /// The value of the `i`-th entry.
    pub fn value_at(&self, i: usize) -> (v: &V)
        requires
            i < self.pairs().len(),
        ensures
            v@ == self.pairs()[i as int].1,
    {
        &self.entries[i].1
    }

    /// Position of the entry with key `k`, if any.
    pub fn position(&self, k: &str) -> (r: Option<usize>)
        ensures
            r is None <==> !has_key(self.pairs(), k@),
            r matches Some(i) ==> i < self.pairs().len() && i == key_pos(self.pairs(), k@),
    {
        proof {
            use_type_invariant(self);
        }
        let mut i: usize = 0;
        while i < self.entries.len()
            invariant
                0 <= i <= self.entries@.len(),
                self.pairs().len() == self.entries@.len(),
                unique_keys(self.pairs()),
                forall|j: int| 0 <= j < i ==> self.pairs()[j].0 != k@,
            decreases self.entries@.len() - i,
        {
            if str_eq(self.entries[i].0.as_str(), k) {
                proof {
                    lemma_key_pos_unique(self.pairs(), k@, i as int);
                }
                return Some(i);
            }
            i = i + 1;
        }
        None
    }

    /// The value stored under `k`.
    pub fn get(&self, k: &str) -> (r: Option<&V>)
        ensures
            r matches Some(v) ==> self.get_spec(k@) == Some(v@),
            r is None ==> self.get_spec(k@) is None,
    {
        match self.position(k) {
            Some(i) => Some(&self.entries[i].1),
            None => None,
        }
    }

    /// Whether `k` is present.
    pub fn contains_key(&self, k: &str) -> (r: bool)
        ensures
            r == has_key(self.pairs(), k@),
    {
        self.position(k).is_some()
    }

    /// Stores `v` under `k`, replacing an earlier value in place; returns the earlier value.
    pub fn insert(&mut self, k: String, v: V) -> (r: Option<V>)
        ensures
            final(self).pairs() == upsert(old(self).pairs(), k@, v@),
            r is None <==> lookup(old(self).pairs(), k@) is None,
            r matches Some(x) ==> lookup(old(self).pairs(), k@) == Some(x@),
    {
        proof {
            use_type_invariant(&*self);
            lemma_upsert(self.pairs(), k@, v@);
        }
        let ghost kv = k@;
        let ghost vv = v@;
        match self.position(k.as_str()) {
            Some(i) => {
                proof {
                    lemma_key_pos_unique(self.pairs(), kv, i as int);
                }
                let mut entries: Vec<(String, V)> = Vec::new();
                std::mem::swap(&mut entries, &mut self.entries);
                let (_, prev) = entries.remove(i);
                entries.insert(i, (k, v));
                assert(entry_views(entries@) =~= upsert(old(self).pairs(), kv, vv));
                self.entries = entries;
                Some(prev)
            },
            None => {
                let mut entries: Vec<(String, V)> = Vec::new();
                std::mem::swap(&mut entries, &mut self.entries);
                entries.push((k, v));
                assert(entry_views(entries@) =~= upsert(old(self).pairs(), kv, vv));
                self.entries = entries;
                None
            },
        }
    }

    /// Removes the entry with key `k`, returning its value.
    pub fn remove(&mut self, k: &str) -> (r: Option<V>)
        ensures
            final(self).pairs() == remove_key(old(self).pairs(), k@),
            r is None <==> lookup(old(self).pairs(), k@) is None,
            r matches Some(x) ==> lookup(old(self).pairs(), k@) == Some(x@),
    {
        proof {
            use_type_invariant(&*self);
            lemma_remove_key(self.pairs(), k@);
        }
        match self.position(k) {
            Some(i) => {
                let mut entries: Vec<(String, V)> = Vec::new();
                std::mem::swap(&mut entries, &mut self.entries);
                let (_, v) = entries.remove(i);
                assert(entry_views(entries@) =~= remove_key(
                    old(self).pairs(),
                    k@,
                ));
                self.entries = entries;
                Some(v)
            },
            None => None,
        }
    }

    /// Removes every entry.
    pub fn clear(&mut self)
        ensures
            final(self).pairs() == Seq::<(Seq<char>, V::V)>::empty(),
    {
        self.entries = Vec::new();
        assert(self.pairs() =~= Seq::<(Seq<char>, V::V)>::empty());
    }
}


impl<W: View> StrMap<StrMap<W>> {
    /// No key occurs twice in a map of maps, nor in any of the maps it holds.
    pub proof fn lemma_nested_keys_unique(self)
        ensures
            unique_keys(self@),
            forall|i: int| 0 <= i < self@.len() ==> unique_keys(#[trigger] self@[i].1),
    {
        let e = entry_views(self.entries@);
        if unique_keys(e) {
            assert forall|i: int| 0 <= i < self@.len() implies unique_keys(#[trigger] self@[i].1) by {
                self.entries@[i].1.lemma_keys_unique();
            }
        }
    }
}

/// The same entries in any order: as many entries, and every key of `a` is
/// mapped by `b` to the same value (with unique keys, the same map).
pub open spec fn same_entries<V>(a: Seq<(Seq<char>, V)>, b: Seq<(Seq<char>, V)>) -> bool {
    &&& a.len() == b.len()
    &&& forall|i: int| 0 <= i < a.len() ==> lookup(b, #[trigger] a[i].0) == Some(a[i].1)
}

/// Values that can be compared by their views.
pub trait ViewEq: View + Sized {
    fn view_eq(&self, other: &Self) -> (r: bool)
        ensures
            r == (self@ == other@),
    ;
}

impl ViewEq for String {
    fn view_eq(&self, other: &Self) -> (r: bool) {
        str_eq(self.as_str(), other.as_str())
    }
}

impl ViewEq for Endpoint {
    fn view_eq(&self, other: &Self) -> (r: bool) {
        if !str_eq(self.address.as_str(), other.address.as_str()) || self.port != other.port {
            return false;
        }
        match (&self.scheme, &other.scheme) {
            (Some(a), Some(b)) => str_eq(a.as_str(), b.as_str()),
            (None, None) => true,
            _ => false,
        }
    }
}

impl<V: ViewEq> StrMap<V> {
    /// Whether both maps hold the same entries, in whatever order.
    pub fn same_entries_as(&self, other: &Self) -> (r: bool)
        ensures
            r == same_entries(self@, other@),
    {
        let n = self.len();
        if n != other.len() {
            return false;
        }
        let mut i: usize = 0;
        while i < n
            invariant
                n == self@.len(),
                self@.len() == other@.len(),
                0 <= i <= n,
                forall|j: int| 0 <= j < i ==> lookup(other@, #[trigger] self@[j].0) == Some(self@[j].1),
            decreases n - i,
        {
            let k = self.key_at(i);
            match other.get(k.as_str()) {
                Some(v) => {
                    if !v.view_eq(self.value_at(i)) {
                        return false;
                    }
                },
                None => {
                    return false;
                },
            }
            i = i + 1;
        }
        true
    }
}

impl PartialEq for StrMap<String> {
    fn eq(&self, other: &Self) -> (r: bool) {
        self.same_entries_as(other)
    }
}

impl vstd::std_specs::cmp::PartialEqSpecImpl for StrMap<String> {
    open spec fn obeys_eq_spec() -> bool {
        true
    }

    open spec fn eq_spec(&self, other: &Self) -> bool {
        same_entries(self@, other@)
    }
}

impl PartialEq for StrMap<Endpoint> {
    fn eq(&self, other: &Self) -> (r: bool) {
        self.same_entries_as(other)
    }
}

impl vstd::std_specs::cmp::PartialEqSpecImpl for StrMap<Endpoint> {
    open spec fn obeys_eq_spec() -> bool {
        true
    }

    open spec fn eq_spec(&self, other: &Self) -> bool {
        same_entries(self@, other@)
    }
}

impl Clone for StrMap<String> {
    fn clone(&self) -> (r: Self)
        ensures
            r@ == self@,
    {
        proof {
            use_type_invariant(self);
        }
        let mut entries: Vec<(String, String)> = Vec::new();
        let mut i: usize = 0;
        while i < self.entries.len()
            invariant
                0 <= i <= self.entries@.len(),
                self.pairs().len() == self.entries@.len(),
                entry_views(entries@) == self.pairs().subrange(0, i as int),
            decreases self.entries@.len() - i,
        {
            let k = self.entries[i].0.clone();
            let v = self.entries[i].1.clone();
            let ghost old_entries = entries@;
            entries.push((k, v));
            proof {
                assert(self.pairs()[i as int] == (self.entries@[i as int].0@, self.entries@[i as int].1@));
                assert(entries@ == old_entries.push((k, v)));
                assert(entry_views(old_entries).len() == i);
                assert forall|j: int| 0 <= j < i + 1 implies #[trigger] entry_views(entries@)[j] == self.pairs().subrange(0, i + 1)[j] by {
                    if j < i {
                        assert(entries@[j] == old_entries[j]);
                        assert(entry_views(old_entries)[j] == self.pairs().subrange(0, i as int)[j]);
                    }
                }
                assert(entry_views(entries@) =~= self.pairs().subrange(0, i + 1));
            }
            i = i + 1;
        }
        assert(self.pairs().subrange(0, self.pairs().len() as int) =~= self.pairs());
        StrMap { entries }
    }
}

impl Clone for StrMap<Endpoint> {
    fn clone(&self) -> (r: Self)
        ensures
            r@ == self@,
    {
        proof {
            use_type_invariant(self);
        }
        let mut entries: Vec<(String, Endpoint)> = Vec::new();
        let mut i: usize = 0;
        while i < self.entries.len()
            invariant
                0 <= i <= self.entries@.len(),
                self.pairs().len() == self.entries@.len(),
                entry_views(entries@) == self.pairs().subrange(0, i as int),
            decreases self.entries@.len() - i,
        {
            let k = self.entries[i].0.clone();
            let v = self.entries[i].1.clone();
            let ghost old_entries = entries@;
            entries.push((k, v));
            proof {
                assert(self.pairs()[i as int] == (self.entries@[i as int].0@, self.entries@[i as int].1@));
                assert(entries@ == old_entries.push((k, v)));
                assert(entry_views(old_entries).len() == i);
                assert forall|j: int| 0 <= j < i + 1 implies #[trigger] entry_views(entries@)[j] == self.pairs().subrange(0, i + 1)[j] by {
                    if j < i {
                        assert(entries@[j] == old_entries[j]);
                        assert(entry_views(old_entries)[j] == self.pairs().subrange(0, i as int)[j]);
                    }
                }
                assert(entry_views(entries@) =~= self.pairs().subrange(0, i + 1));
            }
            i = i + 1;
        }
        assert(self.pairs().subrange(0, self.pairs().len() as int) =~= self.pairs());
        StrMap { entries }
    }
}

} // verus!
