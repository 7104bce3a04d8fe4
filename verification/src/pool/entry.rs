//! One entry of the pool: its key, its backend, its health snapshot and when
//! it was last used.
use vstd::prelude::*;

use crate::backend::Backend;
use crate::config::{ServerConfig, Sharing};
use crate::picked::picked;

verus! {

/// The key of a pool entry: a server and a scope.
pub struct BackendKey {
    pub server: String,
    pub scope: String,
}

impl View for BackendKey {
    type V = (Seq<char>, Seq<char>);

    open spec fn view(&self) -> (Seq<char>, Seq<char>) {
        (self.server@, self.scope@)
    }
}

impl BackendKey {
    /// The key of a server and a scope.
    pub fn new(server: &str, scope: &str) -> (r: Self)
        ensures
            r@ == (server@, scope@),
    {
        BackendKey { server: server.to_owned(), scope: scope.to_owned() }
    }

    /// A copy of the key.
    pub fn copy(&self) -> (r: Self)
        ensures
            r@ == self@,
    {
        BackendKey { server: self.server.clone(), scope: self.scope.clone() }
    }

    /// Whether two keys are the same.
    pub fn is(&self, other: &BackendKey) -> (r: bool)
        ensures
            r == (self@ == other@),
    {
        self.server == other.server && self.scope == other.scope
    }
}

/// A backend in the pool. Times are milliseconds since some fixed moment.
pub struct BackendEntry {
    /// The backend.
    pub backend: Backend,
    /// When it was last used; `None` if it is never reaped.
    pub last_used_ms: Option<u64>,
    /// How many tools the backend had at the last sync.
    pub tool_count: u64,
    /// Whether the backend was ready at the last sync.
    pub ready: bool,
    /// How often the backend had been restarted at the last sync.
    pub restart_count: u64,
}

/// The seconds from `last` to `now`.
pub open spec fn secs_between(last: int, now: int) -> int {
    if now <= last {
        0
    } else {
        (now - last) / 1000
    }
}

impl BackendEntry {
    /// Entries of global servers are never reaped; all others begin to idle.
    pub fn new(backend: Backend, srv: &ServerConfig, now_ms: u64) -> (r: Self)
        ensures
            r == new_entry(backend, srv.shared, now_ms),
            r.in_sync(),
    {
        let reapable: bool = !matches!(srv.shared, Sharing::Global);
        let tool_count: u64 = backend.tools.len() as u64;
        let ready: bool = backend.ready;
        let restart_count: u64 = backend.restart_count as u64;
        let last_used_ms: Option<u64> = if reapable {
            Some(now_ms)
        } else {
            None
        };
        BackendEntry { backend, last_used_ms, tool_count, ready, restart_count }
    }

    /// The health snapshot shows the backend as it is.
    pub open spec fn in_sync(&self) -> bool {
        &&& self.tool_count == self.backend.tools@.len()
        &&& self.ready == self.backend.ready
        &&& self.restart_count == self.backend.restart_count
    }

    /// Takes the health snapshot anew.
    pub fn sync(&mut self)
        ensures
            final(self).in_sync(),
            *final(self) == synced(*old(self)),
    {
        self.ready = self.backend.ready;
        self.tool_count = self.backend.tools.len() as u64;
        self.restart_count = self.backend.restart_count as u64;
    }

    /// Whether the entry is ever reaped.
    pub fn is_reapable(&self) -> (r: bool)
        ensures
            r == self.last_used_ms is Some,
    {
        self.last_used_ms.is_some()
    }

    /// Starts the idle time anew; nothing happens to an entry that is never
    /// reaped.
    pub fn touch(&mut self, now_ms: u64)
        ensures
            *final(self) == touched(*old(self), now_ms),
    {
        if self.is_reapable() {
            self.last_used_ms = Some(now_ms);
        }
    }

    /// Seconds since the last use; `None` if the entry is never reaped.
    pub fn idle_secs(&self, now_ms: u64) -> (r: Option<u64>)
        ensures
            r is Some == self.last_used_ms is Some,
            r matches Some(s) ==> s == idle_of(*self, now_ms)->0,
    {
        match self.last_used_ms {
            Some(last) => if now_ms <= last {
                Some(0)
            } else {
                Some((now_ms - last) / 1000)
            },
            None => None,
        }
    }
}

/// A new entry: it shows its backend as it is; that of a global server is
/// never reaped.
pub open spec fn new_entry(backend: Backend, shared: Sharing, now_ms: u64) -> BackendEntry {
    BackendEntry {
        backend,
        last_used_ms: if shared == Sharing::Global {
            None
        } else {
            Some(now_ms)
        },
        tool_count: backend.tools@.len() as u64,
        ready: backend.ready,
        restart_count: backend.restart_count as u64,
    }
}

/// The entry with its health snapshot taken anew.
pub open spec fn synced(e: BackendEntry) -> BackendEntry {
    BackendEntry {
        tool_count: e.backend.tools@.len() as u64,
        ready: e.backend.ready,
        restart_count: e.backend.restart_count as u64,
        ..e
    }
}

/// The entry after it was used at `now_ms`.
pub open spec fn touched(e: BackendEntry, now_ms: u64) -> BackendEntry {
    if e.last_used_ms is Some {
        BackendEntry { last_used_ms: Some(now_ms), ..e }
    } else {
        e
    }
}

/// How long the entry has been idle, in seconds.
pub open spec fn idle_of(e: BackendEntry, now_ms: u64) -> Option<int> {
    match e.last_used_ms {
        Some(last) => Some(secs_between(last as int, now_ms as int)),
        None => None,
    }
}

/// A key with its entry.
pub struct Slot {
    pub key: BackendKey,
    pub entry: BackendEntry,
}

/// The slot after the health snapshot of its entry was taken anew.
pub open spec fn synced_slot(s: Slot) -> Slot {
    Slot { entry: synced(s.entry), ..s }
}

/// The slot after its entry was used at `now_ms`.
pub open spec fn touched_slot(s: Slot, now_ms: u64) -> Slot {
    Slot { entry: touched(s.entry, now_ms), ..s }
}

/// No key has two slots.
pub open spec fn distinct_slots(slots: Seq<Slot>) -> bool {
    forall|i: int, j: int|
        #![trigger slots[i], slots[j]]
        0 <= i < slots.len() && 0 <= j < slots.len() && slots[i].key@ == slots[j].key@ ==> i == j
}

/// The slot at place `i` has the key `key`.
pub open spec fn keyed_at(slots: Seq<Slot>, key: (Seq<char>, Seq<char>), i: int) -> bool {
    0 <= i < slots.len() && slots[i].key@ == key
}

/// Some slot has the key `key`.
pub open spec fn has_key(slots: Seq<Slot>, key: (Seq<char>, Seq<char>)) -> bool {
    exists|i: int| keyed_at(slots, key, i)
}

/// The place of the slot with the key `key`.
pub open spec fn place_of_key(slots: Seq<Slot>, key: (Seq<char>, Seq<char>)) -> int {
    choose|i: int| keyed_at(slots, key, i)
}

/// The slots with one more, in place of the one with the same key.
pub open spec fn with_slot(slots: Seq<Slot>, s: Slot) -> Seq<Slot> {
    if has_key(slots, s.key@) {
        slots.update(place_of_key(slots, s.key@), s)
    } else {
        slots.push(s)
    }
}

/// The place of a key is found.
pub fn find_slot(slots: &Vec<Slot>, key: &BackendKey) -> (r: Option<usize>)
    requires
        distinct_slots(slots@),
    ensures
        r is Some == has_key(slots@, key@),
        r matches Some(i) ==> keyed_at(slots@, key@, i as int) && i == place_of_key(slots@, key@),
{
    let mut i: usize = 0;
    while i < slots.len()
        invariant
            distinct_slots(slots@),
            i <= slots@.len(),
            forall|j: int| 0 <= j < i ==> (#[trigger] slots@[j]).key@ != key@,
        decreases slots@.len() - i,
    {
        if slots[i].key.is(key) {
            assert(keyed_at(slots@, key@, i as int));
            return Some(i);
        }
        i = i + 1;
    }
    assert forall|j: int| !keyed_at(slots@, key@, j) by {}
    None
}

/// Putting a slot in keeps keys distinct.
pub proof fn lemma_with_slot(slots: Seq<Slot>, s: Slot)
    requires
        distinct_slots(slots),
    ensures
        distinct_slots(with_slot(slots, s)),
        has_key(with_slot(slots, s), s.key@),
        with_slot(slots, s)[place_of_key(with_slot(slots, s), s.key@)] == s,
        forall|key: (Seq<char>, Seq<char>)| #[trigger]
            has_key(with_slot(slots, s), key) == (has_key(slots, key) || key == s.key@),
{
    let t = with_slot(slots, s);
    let p = if has_key(slots, s.key@) {
        place_of_key(slots, s.key@)
    } else {
        slots.len() as int
    };
    assert(keyed_at(t, s.key@, p));
    assert forall|i: int, j: int|
        0 <= i < t.len() && 0 <= j < t.len() && t[i].key@ == t[j].key@ implies i == j by {
        if has_key(slots, s.key@) {
            assert(slots[i].key@ == slots[j].key@);
        } else {
            if i < slots.len() && j < slots.len() {
                assert(slots[i].key@ == slots[j].key@);
            } else if i < slots.len() {
                assert(keyed_at(slots, s.key@, i));
            } else if j < slots.len() {
                assert(keyed_at(slots, s.key@, j));
            }
        }
    }
    assert forall|key: (Seq<char>, Seq<char>)| #[trigger] has_key(t, key) == (has_key(slots, key)
        || key == s.key@) by {
        if has_key(t, key) {
            let i = place_of_key(t, key);
            if key != s.key@ {
                assert(keyed_at(slots, key, i));
            }
        }
        if has_key(slots, key) {
            let i = place_of_key(slots, key);
            assert(keyed_at(t, key, i));
        }
    }
}

/// Taking slots out keeps keys distinct.
pub proof fn lemma_picked_slots(slots: Seq<Slot>, f: spec_fn(Slot) -> bool)
    requires
        distinct_slots(slots),
    ensures
        distinct_slots(picked(slots, f)),
    decreases slots.len(),
{
    if slots.len() > 0 {
        let t = slots.drop_last();
        assert(distinct_slots(t)) by {
            assert forall|i: int, j: int|
                0 <= i < t.len() && 0 <= j < t.len() && t[i].key@ == t[j].key@ implies i == j by {
                assert(slots[i].key@ == slots[j].key@);
            }
        }
        lemma_picked_slots(t, f);
        crate::picked::lemma_picked(t, f);
        let q = picked(t, f);
        let p = picked(slots, f);
        assert forall|i: int, j: int|
            0 <= i < p.len() && 0 <= j < p.len() && p[i].key@ == p[j].key@ implies i == j by {
            if i < q.len() && j < q.len() {
                assert(q[i].key@ == q[j].key@);
            } else if i < q.len() && j == q.len() {
                assert(q.contains(q[i]));
                let m = choose|m: int| 0 <= m < t.len() && t[m] == q[i];
                assert(slots[m].key@ == slots[slots.len() - 1].key@);
            } else if j < q.len() && i == q.len() {
                assert(q.contains(q[j]));
                let m = choose|m: int| 0 <= m < t.len() && t[m] == q[j];
                assert(slots[m].key@ == slots[slots.len() - 1].key@);
            }
        }
    }
}

// ---------------------------------------------------------------------------
// Laws
// ---------------------------------------------------------------------------

/// An entry that has just been used is not idle.
pub proof fn used_entry_is_not_idle(e: BackendEntry, now_ms: u64)
    ensures
        idle_of(touched(e, now_ms), now_ms) == (if e.last_used_ms is Some {
            Some(0int)
        } else {
            None
        }),
{
}

/// Using an entry that is never reaped does not make it reapable.
pub proof fn use_does_not_make_reapable(e: BackendEntry, now_ms: u64)
    ensures
        touched(e, now_ms).last_used_ms is Some == e.last_used_ms is Some,
{
}

/// Idle time is counted in whole seconds since the last use.
pub proof fn idle_is_whole_seconds_since_use(e: BackendEntry, now_ms: u64, secs: int)
    requires
        e.last_used_ms is Some,
        e.last_used_ms->0 <= now_ms,
    ensures
        idle_of(e, now_ms) == Some(secs) <==> e.last_used_ms->0 + 1000 * secs <= now_ms
            < e.last_used_ms->0 + 1000 * (secs + 1),
{
}

/// Only an entry of a server that is not global can ever be idle; it is used
/// when it is made.
pub proof fn only_global_entries_are_never_idle(
    backend: Backend,
    shared: Sharing,
    now_ms: u64,
    later_ms: u64,
)
    ensures
        idle_of(new_entry(backend, shared, now_ms), later_ms) is None == (shared
            == Sharing::Global),
        shared != Sharing::Global ==> idle_of(new_entry(backend, shared, now_ms), now_ms) == Some(
            0int,
        ),
        new_entry(backend, shared, now_ms).backend == backend,
        new_entry(backend, shared, now_ms).ready == backend.ready,
{
}

/// Using an entry changes nothing but when it was last used.
pub proof fn use_changes_only_the_time(e: BackendEntry, now_ms: u64)
    ensures
        touched(e, now_ms).backend == e.backend,
        touched(e, now_ms).tool_count == e.tool_count,
        touched(e, now_ms).ready == e.ready,
        touched(e, now_ms).restart_count == e.restart_count,
        e.last_used_ms is Some ==> touched(e, now_ms).last_used_ms == Some(now_ms),
        e.last_used_ms is None ==> touched(e, now_ms).last_used_ms is None,
{
}

/// Bringing an entry up to date takes over what its backend says, and changes
/// neither the backend nor when it was last used.
pub proof fn synced_entry_is_in_sync(e: BackendEntry)
    requires
        e.backend.tools@.len() <= u64::MAX,
    ensures
        synced(e).in_sync(),
        synced(e).backend == e.backend,
        synced(e).last_used_ms == e.last_used_ms,
        synced(e).tool_count == e.backend.tools@.len(),
        synced(e).ready == e.backend.ready,
        synced(e).restart_count == e.backend.restart_count,
{
}

/// Putting a backend in leaves all others as they are.
pub proof fn insertion_leaves_the_others(slots: Seq<Slot>, s: Slot, other: Slot)
    requires
        distinct_slots(slots),
        other.key@ != s.key@,
    ensures
        with_slot(slots, s).contains(other) == slots.contains(other),
        with_slot(slots, s).contains(s),
        with_slot(slots, s).len() == slots.len() + (if has_key(slots, s.key@) {
            0int
        } else {
            1int
        }),
{
    let t = with_slot(slots, s);
    if has_key(slots, s.key@) {
        let p = place_of_key(slots, s.key@);
        assert(keyed_at(slots, s.key@, p));
        assert(t[p] == s);
    } else {
        assert(t[slots.len() as int] == s);
    }
    if slots.contains(other) {
        let i = choose|i: int| 0 <= i < slots.len() && slots[i] == other;
        assert(t[i] == other);
    }
    if t.contains(other) {
        let i = choose|i: int| 0 <= i < t.len() && t[i] == other;
        assert(i < slots.len());
        assert(slots[i] == other);
    }
}

/// The place of a key is where it stands.
pub proof fn key_is_found_where_it_stands(slots: Seq<Slot>, i: int)
    requires
        distinct_slots(slots),
        0 <= i < slots.len(),
    ensures
        has_key(slots, slots[i].key@),
        place_of_key(slots, slots[i].key@) == i,
{
    assert(keyed_at(slots, slots[i].key@, i));
    let p = place_of_key(slots, slots[i].key@);
    assert(keyed_at(slots, slots[i].key@, p));
    assert(slots[p].key@ == slots[i].key@);
}

} // verus!
