//! The service directory: the latest known instance list of each service,
//! kept up to date by change events, and the services being watched.
use vstd::prelude::*;
use crate::instance::{ServiceInstance, views};
use crate::selector::canary::{first_index_with_id, first_with_id, lemma_first_with_id};
use crate::strmap::{StrMap, has_key, lookup, upsert, lemma_upsert_twice};
use crate::text::{concat_str, str_eq};
use crate::error::RegistryError;
use crate::traits::{ServiceEvent, clone_instances};

verus! {

broadcast use vstd::string::group_string_axioms;

/// The instances of `s` whose identifier is not `id`, in order.
pub open spec fn without_id(s: Seq<ServiceInstance>, id: Seq<char>) -> Seq<ServiceInstance>
    decreases s.len(),
{
    if s.len() == 0 {
        Seq::empty()
    } else {
        let rest = without_id(s.drop_last(), id);
        if s.last().service_id@ == id {
            rest
        } else {
            rest.push(s.last())
        }
    }
}

/// A snapshot after one change: an upsert replaces the first instance with the
/// same identifier, or appends; a delete drops every instance with the
/// identifier; a reset replaces the whole list.
pub open spec fn apply_spec(current: Seq<ServiceInstance>, event: ServiceEvent) -> Seq<ServiceInstance> {
    match event {
        ServiceEvent::Upsert(inst) => match first_with_id(views(current), inst.service_id@) {
            Some(p) => current.update(p, inst),
            None => current.push(inst),
        },
        ServiceEvent::Delete { service_id, .. } => without_id(current, service_id@),
        ServiceEvent::Reset(all) => all@,
    }
}

/// The snapshot of `name`, empty when there is none.
pub open spec fn snapshot_of(snapshots: Seq<(Seq<char>, Seq<ServiceInstance>)>, name: Seq<char>) -> Seq<
    ServiceInstance,
> {
    match lookup(snapshots, name) {
        Some(s) => s,
        None => Seq::empty(),
    }
}

/// The file that a service's snapshot is saved in, inside the snapshot
/// directory: `{service_name}.json`.
pub fn snapshot_file_name(service_name: &str) -> (r: String)
    ensures
        r@ == service_name@ + ".json"@,
{
    concat_str(service_name, ".json")
}

/// The directory's state: snapshots and watched services.
pub struct DirectoryState {
    pub snapshots: Seq<(Seq<char>, Seq<ServiceInstance>)>,
    pub watched: Seq<(Seq<char>, bool)>,
}

/// Latest instance lists per service and the set of watched services.
#[derive(Debug)]
pub struct ServiceDirectory {
    snapshots: StrMap<Vec<ServiceInstance>>,
    watched: StrMap<bool>,
    reconcile_interval_millis: u64,
}

/// The default interval between full reconciliations, in milliseconds (one minute).
pub open spec fn default_reconcile_millis() -> u64 {
    60_000
}

impl ServiceDirectory {
    /// Snapshots and watched services.
    pub closed spec fn state(&self) -> DirectoryState {
        DirectoryState { snapshots: self.snapshots@, watched: self.watched@ }
    }

    /// Every directory keeps one snapshot per service name and marks each
    /// watched service once.
    pub proof fn lemma_state_unique(self)
        ensures
            crate::strmap::unique_keys(self.state().snapshots),
            crate::strmap::unique_keys(self.state().watched),
    {
        self.snapshots.lemma_keys_unique();
        self.watched.lemma_keys_unique();
    }

    /// The interval between full reconciliations, in milliseconds.
    pub closed spec fn interval_spec(&self) -> u64 {
        self.reconcile_interval_millis
    }

    /// An empty directory reconciling every minute.
    pub fn new() -> (r: Self)
        ensures
            r.state() == (DirectoryState { snapshots: Seq::empty(), watched: Seq::empty() }),
            r.interval_spec() == default_reconcile_millis(),
    {
        ServiceDirectory::with_reconcile_interval_millis(60_000)
    }

    /// An empty directory reconciling every `interval_secs` seconds (at most
    /// `u64::MAX` milliseconds).
    pub fn with_reconcile_interval(interval_secs: u64) -> (r: Self)
        ensures
            r.state() == (DirectoryState { snapshots: Seq::empty(), watched: Seq::empty() }),
            r.interval_spec() == (if interval_secs * 1000 > u64::MAX { u64::MAX } else { (interval_secs * 1000) as u64 }),
    {
        let millis = if interval_secs > u64::MAX / 1000 { u64::MAX } else { interval_secs * 1000 };
        ServiceDirectory::with_reconcile_interval_millis(millis)
    }

    /// An empty directory reconciling every `interval_millis` milliseconds.
    pub fn with_reconcile_interval_millis(interval_millis: u64) -> (r: Self)
        ensures
            r.state() == (DirectoryState { snapshots: Seq::empty(), watched: Seq::empty() }),
            r.interval_spec() == interval_millis,
    {
        ServiceDirectory {
            snapshots: StrMap::new(),
            watched: StrMap::new(),
            reconcile_interval_millis: interval_millis,
        }
    }

    /// The interval between full reconciliations, in milliseconds.
    pub fn reconcile_interval_millis(&self) -> (r: u64)
        ensures
            r == self.interval_spec(),
    {
        self.reconcile_interval_millis
    }

    /// Copies of the current instances of `service_name` (none when unknown).
    pub fn get_instances(&self, service_name: &str) -> (r: Vec<ServiceInstance>)
        ensures
            views(r@) == views(snapshot_of(self.state().snapshots, service_name@)),
    {
        match self.snapshots.get(service_name) {
            Some(v) => clone_instances(v.as_slice()),
            None => Vec::new(),
        }
    }

    /// Whether a watcher runs for `service_name`.
    pub fn is_watched(&self, service_name: &str) -> (r: bool)
        ensures
            r == has_key(self.state().watched, service_name@),
    {
        self.watched.contains_key(service_name)
    }

    /// The snapshot of `service_name` when one is held and a watcher keeps it
    /// current; `None` means it has to be fetched.
    pub fn cached_snapshot(&self, service_name: &str) -> (r: Option<Vec<ServiceInstance>>)
        ensures
            r is Some <==> has_key(self.state().snapshots, service_name@) && has_key(
                self.state().watched,
                service_name@,
            ),
            r matches Some(v) ==> views(v@) == views(snapshot_of(self.state().snapshots, service_name@)),
    {
        if !self.watched.contains_key(service_name) {
            return None;
        }
        match self.snapshots.get(service_name) {
            Some(v) => Some(clone_instances(v.as_slice())),
            None => None,
        }
    }

    /// Settles the full fetch of `service_name` on first use: a fetched list
    /// becomes the snapshot; when the fetch failed, a snapshot saved on disk
    /// (`on_disk`) is recovered in its place; with neither, the fetch's error
    /// is returned and nothing changes. Returns copies of the settled list.
    pub fn settle_fetch(
        &mut self,
        service_name: &str,
        fetched: Result<Vec<ServiceInstance>, RegistryError>,
        on_disk: Option<Vec<ServiceInstance>>,
    ) -> (r: Result<Vec<ServiceInstance>, RegistryError>)
        ensures
            match (fetched, on_disk) {
                (Ok(l), _) => (r matches Ok(v) && views(v@) == views(l@)) && final(self).state() == (DirectoryState {
                    snapshots: upsert(old(self).state().snapshots, service_name@, l@),
                    watched: old(self).state().watched,
                }),
                (Err(_), Some(d)) => (r matches Ok(v) && views(v@) == views(d@)) && final(self).state() == (
                DirectoryState {
                    snapshots: upsert(old(self).state().snapshots, service_name@, d@),
                    watched: old(self).state().watched,
                }),
                (Err(e), None) => r == Err::<Vec<ServiceInstance>, RegistryError>(e) && final(self).state() == old(
                    self,
                ).state(),
            },
            final(self).interval_spec() == old(self).interval_spec(),
    {
        let list = match fetched {
            Ok(l) => l,
            Err(e) => match on_disk {
                Some(d) => d,
                None => {
                    return Err(e);
                },
            },
        };
        let copy = clone_instances(list.as_slice());
        self.install_snapshot(service_name, list);
        Ok(copy)
    }

    /// Stores a freshly fetched instance list for `service_name`.
    pub fn install_snapshot(&mut self, service_name: &str, instances: Vec<ServiceInstance>)
        ensures
            final(self).state() == (DirectoryState {
                snapshots: upsert(old(self).state().snapshots, service_name@, instances@),
                watched: old(self).state().watched,
            }),
            final(self).interval_spec() == old(self).interval_spec(),
    {
        self.snapshots.insert(service_name.to_string(), instances);
    }

    /// Marks `service_name` as watched; true when no watcher ran before, so that
    /// one has to be started now.
    pub fn begin_watch(&mut self, service_name: &str) -> (started: bool)
        ensures
            started == !has_key(old(self).state().watched, service_name@),
            final(self).state() == (DirectoryState {
                snapshots: old(self).state().snapshots,
                watched: if started {
                    upsert(old(self).state().watched, service_name@, true)
                } else {
                    old(self).state().watched
                },
            }),
            final(self).interval_spec() == old(self).interval_spec(),
    {
        if self.watched.contains_key(service_name) {
            false
        } else {
            self.watched.insert(service_name.to_string(), true);
            true
        }
    }

    /// Applies one change event to the snapshot of `service_name`.
    pub fn apply_event(&mut self, service_name: &str, event: ServiceEvent)
        ensures
            final(self).state() == (DirectoryState {
                snapshots: upsert(
                    old(self).state().snapshots,
                    service_name@,
                    apply_spec(snapshot_of(old(self).state().snapshots, service_name@), event),
                ),
                watched: old(self).state().watched,
            }),
            final(self).interval_spec() == old(self).interval_spec(),
    {
        let ghost s0 = self.snapshots@;
        proof {
            self.snapshots.lemma_keys_unique();
        }
        let ghost cur = snapshot_of(s0, service_name@);
        let taken = self.snapshots.insert(service_name.to_string(), Vec::new());
        let mut list = match taken {
            Some(v) => v,
            None => Vec::new(),
        };
        assert(list@ == cur);
        let ghost ev = event;
        match event {
            ServiceEvent::Upsert(inst) => {
                match first_index_with_id(list.as_slice(), inst.service_id.as_str()) {
                    Some(p) => {
                        list.set(p, inst);
                    },
                    None => {
                        list.push(inst);
                    },
                }
            },
            ServiceEvent::Delete { service_id, .. } => {
                list = without(list, service_id.as_str());
            },
            ServiceEvent::Reset(all) => {
                list = all;
            },
        }
        assert(list@ == apply_spec(cur, ev));
        let ghost lv = list@;
        self.snapshots.insert(service_name.to_string(), list);
        proof {
            lemma_upsert_twice(s0, service_name@, Seq::<ServiceInstance>::empty(), lv);
        }
    }

    /// Forgets every snapshot and every watcher; returns the services whose
    /// watchers have to be cancelled, in the order they were started.
    pub fn shutdown(&mut self) -> (cancelled: Vec<String>)
        ensures
            cancelled@.map_values(|s: String| s@) == old(self).state().watched.map_values(
                |p: (Seq<char>, bool)| p.0,
            ),
            final(self).state() == (DirectoryState { snapshots: Seq::empty(), watched: Seq::empty() }),
            final(self).interval_spec() == old(self).interval_spec(),
    {
        let mut names: Vec<String> = Vec::new();
        let n = self.watched.len();
        let mut i: usize = 0;
        while i < n
            invariant
                n == self.watched@.len(),
                0 <= i <= n,
                names@.map_values(|s: String| s@) == self.watched@.map_values(|p: (Seq<char>, bool)| p.0).take(
                    i as int,
                ),
            decreases n - i,
        {
            let k = self.watched.key_at(i);
            let ghost before = names@;
            names.push(k.clone());
            assert(names@.map_values(|s: String| s@) =~= before.map_values(|s: String| s@).push(
                self.watched@[i as int].0,
            ));
            assert(names@.map_values(|s: String| s@) =~= self.watched@.map_values(
                |p: (Seq<char>, bool)| p.0,
            ).take(i + 1));
            i = i + 1;
        }
        assert(self.watched@.map_values(|p: (Seq<char>, bool)| p.0).take(n as int) =~= self.watched@.map_values(
            |p: (Seq<char>, bool)| p.0,
        ));
        self.watched.clear();
        self.snapshots.clear();
        names
    }
}

/// `list` without the instances whose identifier is `id`.
fn without(list: Vec<ServiceInstance>, id: &str) -> (r: Vec<ServiceInstance>)
    ensures
        r@ == without_id(list@, id@),
{
    let mut kept: Vec<ServiceInstance> = Vec::new();
    let mut rest = list;
    let ghost orig = rest@;
    let n = rest.len();
    let mut i: usize = 0;
    while rest.len() > 0
        invariant
            n == orig.len(),
            i + rest@.len() == n,
            rest@ == orig.skip(i as int),
            kept@ == without_id(orig.take(i as int), id@),
        decreases rest@.len(),
    {
        let x = rest.remove(0);
        assert(orig.take(i + 1).drop_last() =~= orig.take(i as int));
        assert(orig.take(i + 1).last() == x);
        if !str_eq(x.service_id.as_str(), id) {
            kept.push(x);
        }
        assert(rest@ =~= orig.skip(i + 1));
        i = i + 1;
    }
    assert(orig.take(orig.len() as int) =~= orig);
    kept
}


/// Facts about `without_id`: it keeps exactly the instances with another
/// identifier, and keeps a list that has none with `id` as it is.
pub proof fn lemma_without_id(s: Seq<ServiceInstance>, id: Seq<char>)
    ensures
        forall|x: ServiceInstance| #[trigger] without_id(s, id).contains(x) <==> (s.contains(x) && x.service_id@ != id),
        (forall|j: int| 0 <= j < s.len() ==> (#[trigger] s[j]).service_id@ != id) ==> without_id(s, id) == s,
    decreases s.len(),
{
    if s.len() > 0 {
        let init = s.drop_last();
        lemma_without_id(init, id);
        let rest = without_id(init, id);
        assert forall|x: ServiceInstance| #[trigger] without_id(s, id).contains(x) <==> (s.contains(x) && x.service_id@ != id) by {
            if s.contains(x) && x.service_id@ != id {
                let k = choose|k: int| 0 <= k < s.len() && s[k] == x;
                if k < s.len() - 1 {
                    assert(init[k] == x);
                    assert(init.contains(x));
                    assert(rest.contains(x));
                    let m = choose|m: int| 0 <= m < rest.len() && rest[m] == x;
                    if s.last().service_id@ != id {
                        assert(rest.push(s.last())[m] == x);
                    }
                } else {
                    assert(x == s.last());
                    assert(rest.push(s.last())[rest.len() as int] == x);
                }
            }
            if without_id(s, id).contains(x) {
                let m = choose|m: int| 0 <= m < without_id(s, id).len() && without_id(s, id)[m] == x;
                if m < rest.len() {
                    assert(rest[m] == x);
                    assert(rest.contains(x));
                    let k = choose|k: int| 0 <= k < init.len() && init[k] == x;
                    assert(s[k] == x);
                } else {
                    assert(x == s.last());
                    assert(s[s.len() - 1] == x);
                }
            }
        }
        if forall|j: int| 0 <= j < s.len() ==> (#[trigger] s[j]).service_id@ != id {
            assert forall|j: int| 0 <= j < init.len() implies (#[trigger] init[j]).service_id@ != id by {
                assert(s[j] == init[j]);
            }
            assert(s.last().service_id@ != id);
            assert(init.push(s.last()) =~= s);
        }
    }
}

/// After an upsert the snapshot holds the new instance, and every instance with
/// another identifier is where it was.
pub proof fn law_upsert_then_read(current: Seq<ServiceInstance>, inst: ServiceInstance)
    ensures
        ({
            let next = apply_spec(current, ServiceEvent::Upsert(inst));
            &&& next.contains(inst)
            &&& forall|j: int| 0 <= j < current.len() && (#[trigger] current[j]).service_id@ != inst.service_id@
                    ==> next[j] == current[j]
            &&& next.len() == if (exists|j: int| 0 <= j < current.len() && (#[trigger] current[j]).service_id@
                == inst.service_id@) { current.len() } else { current.len() + 1 }
        }),
{
    lemma_first_with_id(views(current), inst.service_id@);
    let next = apply_spec(current, ServiceEvent::Upsert(inst));
    match first_with_id(views(current), inst.service_id@) {
        Some(p) => {
            assert(next[p] == inst);
            assert(views(current)[p] == current[p]@);
        },
        None => {
            assert(next[current.len() as int] == inst);
            assert forall|j: int| 0 <= j < current.len() implies (#[trigger] current[j]).service_id@ != inst.service_id@ by {
                assert(views(current)[j] == current[j]@);
                assert(views(current)[j].service_id != inst.service_id@);
            }
            assert(!(exists|j: int| 0 <= j < current.len() && (#[trigger] current[j]).service_id@ == inst.service_id@));
        },
    }
}

/// Applying the same upsert twice is applying it once.
pub proof fn law_upsert_idempotent(current: Seq<ServiceInstance>, inst: ServiceInstance)
    ensures
        apply_spec(apply_spec(current, ServiceEvent::Upsert(inst)), ServiceEvent::Upsert(inst))
            == apply_spec(current, ServiceEvent::Upsert(inst)),
{
    let once = apply_spec(current, ServiceEvent::Upsert(inst));
    lemma_first_with_id(views(current), inst.service_id@);
    lemma_first_with_id(views(once), inst.service_id@);
    match first_with_id(views(current), inst.service_id@) {
        Some(p) => {
            assert(views(once)[p] == inst@);
            assert forall|j: int| 0 <= j < p implies (#[trigger] views(once)[j]).service_id != inst.service_id@ by {
                assert(views(once)[j] == views(current)[j]);
            }
            assert(first_with_id(views(once), inst.service_id@) == Some(p)) by {
                if first_with_id(views(once), inst.service_id@) != Some(p) {
                    match first_with_id(views(once), inst.service_id@) {
                        Some(q) => {
                            if q > p {
                                assert(views(once)[p].service_id == inst.service_id@);
                            }
                        },
                        None => {
                            assert(views(once)[p].service_id == inst.service_id@);
                        },
                    }
                }
            }
            assert(once.update(p, inst) =~= once);
        },
        None => {
            let q = current.len() as int;
            assert(views(once)[q] == inst@);
            assert forall|j: int| 0 <= j < q implies (#[trigger] views(once)[j]).service_id != inst.service_id@ by {
                assert(views(once)[j] == views(current)[j]);
            }
            assert(first_with_id(views(once), inst.service_id@) == Some(q)) by {
                match first_with_id(views(once), inst.service_id@) {
                    Some(r) => {},
                    None => {
                        assert(views(once)[q].service_id == inst.service_id@);
                    },
                }
            }
            assert(once.update(q, inst) =~= once);
        },
    }
}

/// Deleting an identifier removes every instance with it and keeps all others.
pub proof fn law_delete_then_read(current: Seq<ServiceInstance>, service_name: String, service_id: String)
    ensures
        forall|x: ServiceInstance| #[trigger] apply_spec(
            current,
            ServiceEvent::Delete { service_name, service_id },
        ).contains(x) <==> (current.contains(x) && x.service_id@ != service_id@),
{
    lemma_without_id(current, service_id@);
}

/// Deleting an instance that an upsert has just added, under an identifier that
/// was not there before, restores the snapshot.
pub proof fn law_delete_undoes_new_upsert(current: Seq<ServiceInstance>, inst: ServiceInstance, service_name: String)
    requires
        forall|j: int| 0 <= j < current.len() ==> (#[trigger] current[j]).service_id@ != inst.service_id@,
    ensures
        apply_spec(
            apply_spec(current, ServiceEvent::Upsert(inst)),
            ServiceEvent::Delete { service_name, service_id: inst.service_id },
        ) == current,
{
    lemma_first_with_id(views(current), inst.service_id@);
    if first_with_id(views(current), inst.service_id@) is Some {
        let p = first_with_id(views(current), inst.service_id@)->0;
        assert(views(current)[p] == current[p]@);
    }
    let once = current.push(inst);
    assert(once.drop_last() =~= current);
    lemma_without_id(current, inst.service_id@);
}

/// Applying an event to one service leaves every other service's snapshot
/// and the watched services as they were, on any directory.
pub proof fn law_apply_event_other_services(dir: ServiceDirectory, service_name: Seq<char>, other: Seq<char>, event: ServiceEvent)
    requires
        other != service_name,
    ensures
        snapshot_of(
            upsert(
                dir.state().snapshots,
                service_name,
                apply_spec(snapshot_of(dir.state().snapshots, service_name), event),
            ),
            other,
        ) == snapshot_of(dir.state().snapshots, other),
{
    dir.lemma_state_unique();
    crate::strmap::lemma_upsert(
        dir.state().snapshots,
        service_name,
        apply_spec(snapshot_of(dir.state().snapshots, service_name), event),
    );
}

/// A reset replaces the snapshot with exactly the given list.
pub proof fn law_reset_replaces(current: Seq<ServiceInstance>, all: Vec<ServiceInstance>)
    ensures
        apply_spec(current, ServiceEvent::Reset(all)) == all@,
{
}

/// What the watch loop of one service is told.
#[derive(Debug)]
pub enum WatchInput {
    /// The watcher was cancelled.
    Cancelled,
    /// A watch stream was opened.
    Connected,
    /// Opening a watch stream failed.
    ConnectFailed,
    /// The stream delivered an event.
    Event(ServiceEvent),
    /// The periodic full listing succeeded.
    Reconciled(Vec<ServiceInstance>),
    /// The periodic full listing failed.
    ReconcileFailed,
    /// The stream ended.
    StreamEnded,
}

/// What the watch loop does next.
#[derive(Debug, Clone, Copy, PartialEq, Eq)]
pub enum WatchAction {
    /// Stop watching.
    Stop,
    /// Sleep this many seconds, then open a stream again.
    RetryAfter(u64),
    /// Open a stream now.
    Connect,
    /// Keep reading the stream and the reconcile timer.
    Listen,
}

/// The longest back-off between failed watch attempts, in seconds.
pub open spec fn max_backoff_secs() -> u64 {
    10
}

/// The back-off after one more failure.
pub open spec fn next_backoff(b: u64) -> u64 {
    if 2 * b > 10 { 10 } else { (2 * b) as u64 }
}

/// The decisions of the watch loop of one service: back-off on failures
/// (1 s doubling up to 10 s, reset on success), reconnection when the stream
/// ends, and how inputs change the directory.
#[derive(Debug)]
pub struct WatchLoop {
    backoff_secs: u64,
}

impl WatchLoop {
    #[verifier::type_invariant]
    closed spec fn bounded(&self) -> bool {
        1 <= self.backoff_secs <= 10
    }

    /// The current back-off in seconds.
    pub closed spec fn backoff_spec(&self) -> u64 {
        self.backoff_secs
    }

    /// A loop that has not failed yet.
    pub fn new() -> (r: Self)
        ensures
            r.backoff_spec() == 1,
    {
        WatchLoop { backoff_secs: 1 }
    }

    /// The back-off stays within 1 to 10 seconds.
    pub fn backoff_secs(&self) -> (r: u64)
        ensures
            r == self.backoff_spec(),
            1 <= r <= max_backoff_secs(),
    {
        proof {
            use_type_invariant(self);
        }
        self.backoff_secs
    }

    /// Handles one input for service `service_name`, updating `dir`.
    pub fn step(&mut self, dir: &mut ServiceDirectory, service_name: &str, input: WatchInput) -> (action: WatchAction)
        ensures
            match input {
                WatchInput::Cancelled => action == WatchAction::Stop && final(self).backoff_spec() == old(self).backoff_spec()
                    && final(dir).state() == old(dir).state(),
                WatchInput::ConnectFailed => action == WatchAction::RetryAfter(old(self).backoff_spec())
                    && final(self).backoff_spec() == next_backoff(old(self).backoff_spec())
                    && final(dir).state() == old(dir).state(),
                WatchInput::Connected => action == WatchAction::Listen && final(self).backoff_spec() == 1
                    && final(dir).state() == old(dir).state(),
                WatchInput::Event(e) => action == WatchAction::Listen && final(self).backoff_spec() == old(self).backoff_spec()
                    && final(dir).state() == (DirectoryState {
                    snapshots: upsert(
                        old(dir).state().snapshots,
                        service_name@,
                        apply_spec(snapshot_of(old(dir).state().snapshots, service_name@), e),
                    ),
                    watched: old(dir).state().watched,
                }),
                WatchInput::Reconciled(all) => action == WatchAction::Listen && final(self).backoff_spec() == old(self).backoff_spec()
                    && final(dir).state() == (DirectoryState {
                    snapshots: upsert(old(dir).state().snapshots, service_name@, all@),
                    watched: old(dir).state().watched,
                }),
                WatchInput::ReconcileFailed => action == WatchAction::Listen && final(self).backoff_spec() == old(self).backoff_spec()
                    && final(dir).state() == old(dir).state(),
                WatchInput::StreamEnded => action == WatchAction::Connect && final(self).backoff_spec() == old(self).backoff_spec()
                    && final(dir).state() == old(dir).state(),
            },
            final(dir).interval_spec() == old(dir).interval_spec(),
    {
        proof {
            use_type_invariant(&*self);
        }
        match input {
            WatchInput::Cancelled => WatchAction::Stop,
            WatchInput::ConnectFailed => {
                let b = self.backoff_secs;
                let next = if 2 * b > 10 { 10 } else { 2 * b };
                *self = WatchLoop { backoff_secs: next };
                WatchAction::RetryAfter(b)
            },
            WatchInput::Connected => {
                *self = WatchLoop { backoff_secs: 1 };
                WatchAction::Listen
            },
            WatchInput::Event(e) => {
                dir.apply_event(service_name, e);
                WatchAction::Listen
            },
            WatchInput::Reconciled(all) => {
                let ghost av = all@;
                dir.apply_event(service_name, ServiceEvent::Reset(all));
                WatchAction::Listen
            },
            WatchInput::ReconcileFailed => WatchAction::Listen,
            WatchInput::StreamEnded => WatchAction::Connect,
        }
    }
}

/// The back-off after `k` failures in a row: 1, 2, 4, 8, then 10 seconds.
pub open spec fn backoff_after(k: nat) -> u64
    decreases k,
{
    if k == 0 {
        1
    } else {
        next_backoff(backoff_after((k - 1) as nat))
    }
}

/// Consecutive watch failures wait 1, 2, 4 and 8 seconds, then 10 seconds each.
pub proof fn law_backoff_schedule(k: nat)
    ensures
        k <= 3 ==> backoff_after(k) == vstd::arithmetic::power2::pow2(k) as u64,
        k >= 4 ==> backoff_after(k) == 10,
    decreases k,
{
    vstd::arithmetic::power2::lemma2_to64();
    if k > 0 {
        law_backoff_schedule((k - 1) as nat);
    }
}

} // verus!
