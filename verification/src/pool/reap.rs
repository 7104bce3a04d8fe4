//! Which idle backends are reaped.
//!
//! A pass first collects the stale backends, and looks at each again before it
//! takes it out, so that one that was used in between is spared.
use vstd::prelude::*;

use crate::config::{Config, ServerView};
use crate::picked::picked;
use crate::pool::entry::{BackendEntry, BackendKey, Slot};
use crate::pool::{BackendPool, DEFAULT_IDLE_TIMEOUT_SECS, keys_view};

verus! {

/// The idle timeout of the server called `name`.
pub open spec fn timeout_for(servers: Map<Seq<char>, ServerView>, name: Seq<char>) -> int {
    if servers.dom().contains(name) && servers[name].idle_timeout_secs is Some {
        servers[name].idle_timeout_secs->0 as int
    } else {
        900
    }
}

/// The entry has been idle for longer than its server allows.
pub open spec fn stale(servers: Map<Seq<char>, ServerView>, now_ms: u64) -> spec_fn(Slot) -> bool {
    |s: Slot|
        crate::pool::entry::idle_of(s.entry, now_ms) matches Some(idle) && idle > timeout_for(
            servers,
            s.key.server@,
        )
}

/// The entry is not stale.
pub open spec fn fresh(servers: Map<Seq<char>, ServerView>, now_ms: u64) -> spec_fn(Slot) -> bool {
    |s: Slot| !stale(servers, now_ms)(s)
}

/// One of `keys` is the slot's key, and the entry is stale.
pub open spec fn doomed(
    keys: Seq<(Seq<char>, Seq<char>)>,
    servers: Map<Seq<char>, ServerView>,
    now_ms: u64,
) -> spec_fn(Slot) -> bool {
    |s: Slot| keys.contains(s.key@) && stale(servers, now_ms)(s)
}

/// The slot is spared.
pub open spec fn spared(
    keys: Seq<(Seq<char>, Seq<char>)>,
    servers: Map<Seq<char>, ServerView>,
    now_ms: u64,
) -> spec_fn(Slot) -> bool {
    |s: Slot| !doomed(keys, servers, now_ms)(s)
}

/// The idle timeout of the server called `name`.
pub fn idle_timeout(config: &Config, name: &str) -> (r: u64)
    ensures
        r == timeout_for(config@.servers, name@),
{
    match config.servers.get(name) {
        Some(srv) => match srv.idle_timeout_secs {
            Some(t) => t,
            None => DEFAULT_IDLE_TIMEOUT_SECS,
        },
        None => DEFAULT_IDLE_TIMEOUT_SECS,
    }
}

fn is_stale(config: &Config, key: &BackendKey, entry: &BackendEntry, now_ms: u64) -> (r: bool)
    ensures
        forall|s: Slot|
            s.key@ == key@ && s.entry == *entry ==> r == #[trigger] stale(
                config@.servers,
                now_ms,
            )(s),
{
    match entry.idle_secs(now_ms) {
        Some(idle) => idle > idle_timeout(config, key.server.as_str()),
        None => false,
    }
}

/// Whether `key` stands in the list.
pub fn contains_key(keys: &Vec<BackendKey>, key: &BackendKey) -> (r: bool)
    ensures
        r == keys_view(keys@).contains(key@),
{
    let mut i: usize = 0;
    while i < keys.len()
        invariant
            i <= keys@.len(),
            forall|j: int| 0 <= j < i ==> (#[trigger] keys@[j])@ != key@,
        decreases keys@.len() - i,
    {
        if keys[i].is(key) {
            assert(keys_view(keys@)[i as int] == key@);
            return true;
        }
        i = i + 1;
    }
    assert forall|j: int| 0 <= j < keys_view(keys@).len() implies keys_view(keys@)[j] != key@ by {
        assert(keys@[j]@ != key@);
    }
    false
}

/// The keys of the slots.
pub open spec fn slot_keys(slots: Seq<Slot>) -> Seq<(Seq<char>, Seq<char>)> {
    Seq::new(slots.len(), |i: int| slots[i].key@)
}

impl BackendPool {
    /// The keys of the backends that are stale now.
    pub fn reap_candidates(&self, now_ms: u64) -> (r: Vec<BackendKey>)
        ensures
            keys_view(r@) == slot_keys(
                picked(self.slots@, stale(self.config@.servers, now_ms)),
            ),
    {
        let ghost all = self.slots@;
        let ghost f = stale(self.config@.servers, now_ms);
        let mut out: Vec<BackendKey> = Vec::new();
        let mut i: usize = 0;
        assert(all.take(0) =~= Seq::empty());
        assert(keys_view(out@) =~= slot_keys(picked(all.take(0), f)));
        while i < self.slots.len()
            invariant
                all == self.slots@,
                f == stale(self.config@.servers, now_ms),
                i <= all.len(),
                keys_view(out@) == slot_keys(picked(all.take(i as int), f)),
            decreases all.len() - i,
        {
            let s: &Slot = &self.slots[i];
            proof {
                assert(all.take(i + 1) =~= all.take(i as int).push(all[i as int]));
                crate::picked::lemma_picked_push(all.take(i as int), all[i as int], f);
            }
            if is_stale(&self.config, &s.key, &s.entry, now_ms) {
                let ghost before = out@;
                assert(f(*s));
                let key = s.key.copy();
                let ghost added = key@;
                out.push(key);
                assert(keys_view(out@) =~= keys_view(before).push(added));
                assert(slot_keys(picked(all.take(i + 1), f)) =~= slot_keys(
                    picked(all.take(i as int), f),
                ).push(added));
            } else {
                assert(!f(*s));
            }
            i = i + 1;
        }
        assert(all.take(all.len() as int) =~= all);
        out
    }

    /// Takes those of the candidates out that are still stale.
    pub fn reap_confirmed(&mut self, candidates: &Vec<BackendKey>, now_ms: u64) -> (r: Vec<Slot>)
        requires
            old(self).wf(),
        ensures
            final(self).wf(),
            final(self).config == old(self).config,
            final(self).slots@ == picked(
                old(self).slots@,
                spared(keys_view(candidates@), old(self).config@.servers, now_ms),
            ),
            r@ == picked(
                old(self).slots@,
                doomed(keys_view(candidates@), old(self).config@.servers, now_ms),
            ),
    {
        let ghost all = self.slots@;
        let ghost dead = doomed(keys_view(candidates@), self.config@.servers, now_ms);
        let ghost alive = spared(keys_view(candidates@), self.config@.servers, now_ms);
        let mut slots: Vec<Slot> = Vec::new();
        std::mem::swap(&mut slots, &mut self.slots);
        let mut kept: Vec<Slot> = Vec::new();
        let mut removed: Vec<Slot> = Vec::new();
        assert(all.take(0) =~= Seq::empty());
        for s in it: slots.into_iter()
            invariant
                it.seq() == all,
                dead == doomed(keys_view(candidates@), self.config@.servers, now_ms),
                alive == spared(keys_view(candidates@), self.config@.servers, now_ms),
                kept@ == picked(all.take(it.index() as int), alive),
                removed@ == picked(all.take(it.index() as int), dead),
        {
            proof {
                let i = it.index() as int;
                assert(all.take(i + 1) =~= all.take(i).push(all[i]));
                crate::picked::lemma_picked_push(all.take(i), all[i], alive);
                crate::picked::lemma_picked_push(all.take(i), all[i], dead);
            }
            let old_one: bool = is_stale(&self.config, &s.key, &s.entry, now_ms);
            assert(old_one == stale(self.config@.servers, now_ms)(s));
            if old_one && contains_key(candidates, &s.key) {
                assert(dead(s) && !alive(s));
                removed.push(s);
            } else {
                assert(!dead(s) && alive(s));
                kept.push(s);
            }
        }
        proof {
            assert(all.take(all.len() as int) =~= all);
            crate::pool::entry::lemma_picked_slots(all, alive);
        }
        self.slots = kept;
        removed
    }

    /// One reap pass: takes every stale backend out.
    pub fn reap_once(&mut self, now_ms: u64) -> (r: Vec<Slot>)
        requires
            old(self).wf(),
        ensures
            final(self).wf(),
            final(self).config == old(self).config,
            final(self).slots@ == picked(
                old(self).slots@,
                fresh(old(self).config@.servers, now_ms),
            ),
            r@ == picked(old(self).slots@, stale(old(self).config@.servers, now_ms)),
    {
        let candidates = self.reap_candidates(now_ms);
        proof {
            let all = self.slots@;
            let servers = self.config@.servers;
            let f = stale(servers, now_ms);
            let keys = keys_view(candidates@);
            crate::picked::lemma_picked(all, f);
            assert forall|i: int| 0 <= i < all.len() implies f(#[trigger] all[i]) == doomed(
                keys,
                servers,
                now_ms,
            )(all[i]) by {
                if f(all[i]) {
                    assert(all.contains(all[i]));
                    assert(picked(all, f).contains(all[i]));
                    let k = choose|k: int| 0 <= k < picked(all, f).len() && picked(all, f)[k]
                        == all[i];
                    assert(keys[k] == all[i].key@);
                    assert(keys.contains(all[i].key@));
                }
            }
            crate::picked::lemma_picked_same(all, f, doomed(keys, servers, now_ms));
            crate::picked::lemma_picked_same(
                all,
                fresh(servers, now_ms),
                spared(keys, servers, now_ms),
            );
        }
        self.reap_confirmed(&candidates, now_ms)
    }
}

// ---------------------------------------------------------------------------
// Laws
// ---------------------------------------------------------------------------

/// An entry that is never reaped, as that of a global server, is never stale.
pub proof fn unreapable_is_never_stale(
    servers: Map<Seq<char>, ServerView>,
    s: Slot,
    now_ms: u64,
)
    requires
        s.entry.last_used_ms is None,
    ensures
        !stale(servers, now_ms)(s),
{
}

/// The backend of a global server is never reaped.
pub proof fn global_is_never_reaped(
    servers: Map<Seq<char>, ServerView>,
    key: BackendKey,
    backend: crate::backend::Backend,
    started_ms: u64,
    now_ms: u64,
)
    ensures
        !stale(servers, now_ms)(
            Slot {
                key,
                entry: crate::pool::entry::new_entry(
                    backend,
                    crate::config::Sharing::Global,
                    started_ms,
                ),
            },
        ),
{
}

/// A candidate that is used before the second look is spared.
pub proof fn use_spares_a_candidate(
    keys: Seq<(Seq<char>, Seq<char>)>,
    servers: Map<Seq<char>, ServerView>,
    s: Slot,
    now_ms: u64,
)
    ensures
        spared(keys, servers, now_ms)(crate::pool::entry::touched_slot(s, now_ms)),
{
}

/// A backend is reaped only when it has been idle for more whole seconds than
/// its timeout.
pub proof fn reaped_was_idle(servers: Map<Seq<char>, ServerView>, s: Slot, now_ms: u64)
    requires
        stale(servers, now_ms)(s),
    ensures
        s.entry.last_used_ms is Some,
        now_ms - s.entry.last_used_ms->0 > 1000 * timeout_for(servers, s.key.server@),
{
}

/// A backend is reaped if and only if a second more than its timeout has gone by
/// since its last use: that of its server, or fifteen minutes.
pub proof fn reaped_after_its_timeout(
    servers: Map<Seq<char>, ServerView>,
    s: Slot,
    now_ms: u64,
    secs: int,
)
    requires
        s.entry.last_used_ms is Some,
        secs == (if servers.dom().contains(s.key.server@)
            && servers[s.key.server@].idle_timeout_secs is Some {
            servers[s.key.server@].idle_timeout_secs->0 as int
        } else {
            15int * 60
        }),
    ensures
        stale(servers, now_ms)(s) == (now_ms >= s.entry.last_used_ms->0 + 1000 * (secs + 1)),
        fresh(servers, now_ms)(s) == !stale(servers, now_ms)(s),
{
}

/// Of the candidates, those that are still stale are reaped, and nothing else.
pub proof fn only_stale_candidates_are_reaped(
    keys: Seq<(Seq<char>, Seq<char>)>,
    servers: Map<Seq<char>, ServerView>,
    s: Slot,
    now_ms: u64,
)
    ensures
        doomed(keys, servers, now_ms)(s) == (keys.contains(s.key@) && stale(servers, now_ms)(s)),
        spared(keys, servers, now_ms)(s) == !(keys.contains(s.key@) && stale(servers, now_ms)(s)),
{
}

} // verus!
