//! What a new config changes in the pool.
//!
//! Backends of servers that are gone are killed in every scope. Of a changed
//! server only the backend in the default scope is killed, and started again if
//! the server is global. Backends of sessions and credentials are left to be
//! started when they are next asked for.
use vstd::prelude::*;

use crate::backend::Backend;
use crate::config::{Config, ServerConfig, ServerView, Sharing, is_server_disabled};
use crate::expand::Texts;
use crate::names::{Duplicate, NameMap, SameView};
use crate::picked::picked;
use crate::pool::entry::{BackendKey, Slot};
use crate::pool::env_key::{DEFAULT_ENV_KEY, backend_env_key};
use crate::pool::{BackendPool, keys_view, no_texts};
use crate::text::{contains_text, same_text};

verus! {

/// The servers of the old config that are gone from the new one.
pub open spec fn gone_servers(
    old_servers: Seq<(Seq<char>, ServerView)>,
    new_servers: Map<Seq<char>, ServerView>,
    process_env: Texts,
) -> Seq<Seq<char>>
    decreases old_servers.len(),
{
    if old_servers.len() == 0 {
        Seq::empty()
    } else {
        let before = gone_servers(old_servers.drop_last(), new_servers, process_env);
        let (name, srv) = old_servers.last();
        if !crate::config::disabled(name, srv, process_env) && !new_servers.dom().contains(name) {
            before.push(name)
        } else {
            before
        }
    }
}

/// The servers of the old config that the new one changes.
pub open spec fn changed_servers(
    old_servers: Seq<(Seq<char>, ServerView)>,
    new_servers: Map<Seq<char>, ServerView>,
    process_env: Texts,
) -> Seq<Seq<char>>
    decreases old_servers.len(),
{
    if old_servers.len() == 0 {
        Seq::empty()
    } else {
        let before = changed_servers(old_servers.drop_last(), new_servers, process_env);
        let (name, srv) = old_servers.last();
        if !crate::config::disabled(name, srv, process_env) && new_servers.dom().contains(name)
            && new_servers[name] != srv {
            before.push(name)
        } else {
            before
        }
    }
}

/// The servers of the new config that the old one does not have.
pub open spec fn added_servers(
    old_servers: Map<Seq<char>, ServerView>,
    new_servers: Seq<(Seq<char>, ServerView)>,
    process_env: Texts,
) -> Seq<Seq<char>>
    decreases new_servers.len(),
{
    if new_servers.len() == 0 {
        Seq::empty()
    } else {
        let before = added_servers(old_servers, new_servers.drop_last(), process_env);
        let (name, srv) = new_servers.last();
        if !crate::config::disabled(name, srv, process_env) && !old_servers.dom().contains(name) {
            before.push(name)
        } else {
            before
        }
    }
}

/// What a new config changes.
pub struct ReloadPlan {
    /// The servers that are gone.
    pub remove: Vec<String>,
    /// The servers that changed.
    pub restart: Vec<String>,
    /// The servers that are new.
    pub add: Vec<String>,
    /// Whether custom tools changed.
    pub custom_changed: bool,
}

impl ReloadPlan {
    /// The plan is that of going from one config to another.
    pub open spec fn is_for(
        &self,
        old_config: &Config,
        new_config: &Config,
        process_env: Texts,
    ) -> bool {
        &&& crate::text::texts(self.remove@) == gone_servers(
            old_config.servers.pairs(),
            new_config@.servers,
            process_env,
        )
        &&& crate::text::texts(self.restart@) == changed_servers(
            old_config.servers.pairs(),
            new_config@.servers,
            process_env,
        )
        &&& crate::text::texts(self.add@) == added_servers(
            old_config@.servers,
            new_config.servers.pairs(),
            process_env,
        )
        &&& self.custom_changed == (old_config@.custom_tools != new_config@.custom_tools)
    }
}

/// Compares two configs.
pub fn plan_reload(old_config: &Config, new_config: &Config, process_env: &NameMap<String>) -> (r:
    ReloadPlan)
    ensures
        r.is_for(old_config, new_config, process_env@),
{
    let ghost old_pairs = old_config.servers.pairs();
    let ghost new_pairs = new_config.servers.pairs();
    let ghost old_map = old_config@.servers;
    let ghost new_map = new_config@.servers;
    let mut remove: Vec<String> = Vec::new();
    let mut restart: Vec<String> = Vec::new();
    let n: usize = old_config.servers.len();
    let mut i: usize = 0;
    assert(crate::text::texts(remove@) =~= gone_servers(old_pairs.take(0), new_map, process_env@));
    assert(crate::text::texts(restart@) =~= changed_servers(
        old_pairs.take(0),
        new_map,
        process_env@,
    ));
    while i < n
        invariant
            old_pairs == old_config.servers.pairs(),
            new_map == new_config@.servers,
            n == old_pairs.len(),
            i <= n,
            crate::text::texts(remove@) == gone_servers(
                old_pairs.take(i as int),
                new_map,
                process_env@,
            ),
            crate::text::texts(restart@) == changed_servers(
                old_pairs.take(i as int),
                new_map,
                process_env@,
            ),
        decreases n - i,
    {
        assert(old_pairs.take(i + 1).drop_last() =~= old_pairs.take(i as int));
        let name = old_config.servers.name_at(i);
        let srv = old_config.servers.value_at(i);
        if !is_server_disabled(name.as_str(), srv, process_env) {
            match new_config.servers.get(name.as_str()) {
                None => {
                    let ghost before = remove@;
                    remove.push(name.clone());
                    assert(crate::text::texts(remove@) =~= crate::text::texts(before).push(name@));
                },
                Some(new_srv) => {
                    if !srv.same(new_srv) {
                        let ghost before = restart@;
                        restart.push(name.clone());
                        assert(crate::text::texts(restart@) =~= crate::text::texts(before).push(
                            name@,
                        ));
                    }
                },
            }
        }
        i = i + 1;
    }
    assert(old_pairs.take(n as int) =~= old_pairs);
    let mut add: Vec<String> = Vec::new();
    let m: usize = new_config.servers.len();
    let mut k: usize = 0;
    assert(crate::text::texts(add@) =~= added_servers(old_map, new_pairs.take(0), process_env@));
    while k < m
        invariant
            new_pairs == new_config.servers.pairs(),
            old_map == old_config@.servers,
            m == new_pairs.len(),
            k <= m,
            crate::text::texts(add@) == added_servers(
                old_map,
                new_pairs.take(k as int),
                process_env@,
            ),
        decreases m - k,
    {
        assert(new_pairs.take(k + 1).drop_last() =~= new_pairs.take(k as int));
        let name = new_config.servers.name_at(k);
        let srv = new_config.servers.value_at(k);
        if !is_server_disabled(name.as_str(), srv, process_env) && !old_config.servers.contains(
            name.as_str(),
        ) {
            let ghost before = add@;
            add.push(name.clone());
            assert(crate::text::texts(add@) =~= crate::text::texts(before).push(name@));
        }
        k = k + 1;
    }
    assert(new_pairs.take(m as int) =~= new_pairs);
    let custom_changed: bool = !old_config.custom_tools.same(&new_config.custom_tools);
    ReloadPlan { remove, restart, add, custom_changed }
}

/// The backend is killed by a reload: its server is gone, or its server
/// changed and it has the default scope.
pub open spec fn killed(gone: Seq<Seq<char>>, changed: Seq<Seq<char>>) -> spec_fn(Slot) -> bool {
    |s: Slot|
        gone.contains(s.key.server@) || (changed.contains(s.key.server@) && s.key.scope@
            == "__default__"@)
}

/// The backend survives a reload.
pub open spec fn survives(gone: Seq<Seq<char>>, changed: Seq<Seq<char>>) -> spec_fn(Slot) -> bool {
    |s: Slot| !killed(gone, changed)(s)
}

/// Of `names`, the backends to start: those of enabled global servers.
pub open spec fn global_starts(
    names: Seq<Seq<char>>,
    servers: Map<Seq<char>, ServerView>,
    process_env: Texts,
) -> Seq<(Seq<char>, Seq<char>)>
    decreases names.len(),
{
    if names.len() == 0 {
        Seq::empty()
    } else {
        let before = global_starts(names.drop_last(), servers, process_env);
        let name = names.last();
        if servers.dom().contains(name) && !crate::config::disabled(
            name,
            servers[name],
            process_env,
        ) && servers[name].shared == Sharing::Global {
            before.push(
                (
                    name,
                    crate::pool::env_key::credential_scope(
                        crate::pool::env_key::env_keys(servers[name]),
                        no_texts(),
                    ),
                ),
            )
        } else {
            before
        }
    }
}

fn add_global_starts(
    names: &Vec<String>,
    config: &Config,
    process_env: &NameMap<String>,
    out: &mut Vec<BackendKey>,
)
    ensures
        keys_view(final(out)@) == keys_view(old(out)@) + global_starts(
            crate::text::texts(names@),
            config@.servers,
            process_env@,
        ),
{
    let ghost all = crate::text::texts(names@);
    let ghost start = keys_view(out@);
    let nothing: NameMap<String> = NameMap::new();
    let mut i: usize = 0;
    assert(keys_view(out@) =~= start + global_starts(
        all.take(0),
        config@.servers,
        process_env@,
    ));
    while i < names.len()
        invariant
            all == crate::text::texts(names@),
            nothing@ == no_texts(),
            i <= names@.len(),
            keys_view(out@) == start + global_starts(
                all.take(i as int),
                config@.servers,
                process_env@,
            ),
        decreases names@.len() - i,
    {
        assert(all.take(i + 1).drop_last() =~= all.take(i as int));
        let name: &str = names[i].as_str();
        match config.servers.get(name) {
            Some(srv) => {
                if !is_server_disabled(name, srv, process_env) && matches!(
                    srv.shared,
                    Sharing::Global
                ) {
                    let ghost before = out@;
                    let scope = backend_env_key(srv, &nothing);
                    let key = BackendKey::new(name, scope.as_str());
                    let ghost added = key@;
                    out.push(key);
                    assert(keys_view(out@) =~= keys_view(before).push(added));
                    assert(start + global_starts(
                        all.take(i as int),
                        config@.servers,
                        process_env@,
                    ).push(added) =~= (start + global_starts(
                        all.take(i as int),
                        config@.servers,
                        process_env@,
                    )).push(added));
                }
            },
            None => {},
        }
        i = i + 1;
    }
    assert(all.take(all.len() as int) =~= all);
}

/// What is to be done for a reload.
pub struct Reload {
    /// The backends that are out of the pool and are to be killed.
    pub removed: Vec<Slot>,
    /// The backends to start.
    pub start: Vec<BackendKey>,
    /// Whether custom tools changed.
    pub custom_changed: bool,
}

/// The backends that going from one config to another starts.
pub open spec fn reload_starts(
    old_config: &Config,
    new_config: &Config,
    process_env: Texts,
) -> Seq<(Seq<char>, Seq<char>)> {
    global_starts(
        changed_servers(old_config.servers.pairs(), new_config@.servers, process_env),
        new_config@.servers,
        process_env,
    ) + global_starts(
        added_servers(old_config@.servers, new_config.servers.pairs(), process_env),
        new_config@.servers,
        process_env,
    )
}

/// The backends that going from one config to another kills.
pub open spec fn reload_kills(
    old_config: &Config,
    new_config: &Config,
    process_env: Texts,
) -> spec_fn(Slot) -> bool {
    killed(
        gone_servers(old_config.servers.pairs(), new_config@.servers, process_env),
        changed_servers(old_config.servers.pairs(), new_config@.servers, process_env),
    )
}

/// The backends that going from one config to another leaves.
pub open spec fn reload_leaves(
    old_config: &Config,
    new_config: &Config,
    process_env: Texts,
) -> spec_fn(Slot) -> bool {
    survives(
        gone_servers(old_config.servers.pairs(), new_config@.servers, process_env),
        changed_servers(old_config.servers.pairs(), new_config@.servers, process_env),
    )
}

/// A reload begins: nothing happens if the config is the same; else backends are
/// taken out, and others are to be started.
pub open spec fn reload_begins(
    r: Reload,
    old_config: &Config,
    new_config: &Config,
    process_env: Texts,
    slots: Seq<Slot>,
    after: Seq<Slot>,
) -> bool {
    &&& old_config@ == new_config@ ==> {
        &&& after == slots
        &&& r.removed@.len() == 0
        &&& r.start@.len() == 0
        &&& !r.custom_changed
    }
    &&& old_config@ != new_config@ ==> {
        &&& after == picked(slots, reload_leaves(old_config, new_config, process_env))
        &&& r.removed@ == picked(slots, reload_kills(old_config, new_config, process_env))
        &&& keys_view(r.start@) == reload_starts(old_config, new_config, process_env)
        &&& r.custom_changed == (old_config@.custom_tools != new_config@.custom_tools)
    }
}

impl BackendPool {
    /// Begins a reload: takes the backends out that the new config ends, and
    /// says which to start. Nothing happens if the config is the same.
    pub fn begin_reload(&mut self, new_config: &Config, process_env: &NameMap<String>) -> (r: Reload)
        requires
            old(self).wf(),
        ensures
            final(self).wf(),
            final(self).config == old(self).config,
            reload_begins(
                r,
                &old(self).config,
                new_config,
                process_env@,
                old(self).slots@,
                final(self).slots@,
            ),
    {
        if self.config.same(new_config) {
            return Reload { removed: Vec::new(), start: Vec::new(), custom_changed: false };
        }
        let plan = plan_reload(&self.config, new_config, process_env);
        let ghost gone = crate::text::texts(plan.remove@);
        let ghost changed = crate::text::texts(plan.restart@);
        let ghost dead = reload_kills(&self.config, new_config, process_env@);
        let ghost alive = reload_leaves(&self.config, new_config, process_env@);
        let ghost all = self.slots@;
        let mut slots: Vec<Slot> = Vec::new();
        std::mem::swap(&mut slots, &mut self.slots);
        let mut kept: Vec<Slot> = Vec::new();
        let mut removed: Vec<Slot> = Vec::new();
        assert(all.take(0) =~= Seq::empty());
        for s in it: slots.into_iter()
            invariant
                it.seq() == all,
                gone == crate::text::texts(plan.remove@),
                changed == crate::text::texts(plan.restart@),
                dead == killed(gone, changed),
                alive == survives(gone, changed),
                kept@ == picked(all.take(it.index() as int), alive),
                removed@ == picked(all.take(it.index() as int), dead),
        {
            proof {
                let i = it.index() as int;
                assert(all.take(i + 1) =~= all.take(i).push(all[i]));
                crate::picked::lemma_picked_push(all.take(i), all[i], alive);
                crate::picked::lemma_picked_push(all.take(i), all[i], dead);
            }
            let server: &str = s.key.server.as_str();
            if contains_text(&plan.remove, server) || (contains_text(&plan.restart, server)
                && same_text(s.key.scope.as_str(), DEFAULT_ENV_KEY)) {
                assert(dead(s) && !alive(s));
                removed.push(s);
            } else {
                assert(!dead(s) && alive(s));
                kept.push(s);
            }
        }
        proof {
            assert(all.take(all.len() as int) =~= all);
            crate::pool::entry::lemma_picked_slots(all, alive);
        }
        self.slots = kept;
        let mut start: Vec<BackendKey> = Vec::new();
        add_global_starts(&plan.restart, new_config, process_env, &mut start);
        add_global_starts(&plan.add, new_config, process_env, &mut start);
        assert(keys_view(start@) =~= reload_starts(&self.config, new_config, process_env@));
        Reload { removed, start, custom_changed: plan.custom_changed }
    }

    /// Puts a backend that the reload started into the pool.
    pub fn reload_started(
        &mut self,
        key: BackendKey,
        backend: Backend,
        new_config: &Config,
        now_ms: u64,
    ) -> (r: Option<Slot>)
        requires
            old(self).wf(),
            new_config@.servers.dom().contains(key@.0),
        ensures
            final(self).wf(),
            final(self).config == old(self).config,
            final(self).slots@ == crate::pool::entry::with_slot(
                old(self).slots@,
                (Slot {
                    key,
                    entry: crate::pool::entry::new_entry(
                        backend,
                        new_config@.servers[key@.0].shared,
                        now_ms,
                    ),
                }),
            ),
            r is Some == crate::pool::entry::has_key(old(self).slots@, key@),
            r matches Some(s) ==> s == old(self).slots@[crate::pool::entry::place_of_key(
                old(self).slots@,
                key@,
            )],
    {
        let srv: ServerConfig = match new_config.servers.get(key.server.as_str()) {
            Some(srv) => srv.duplicate(),
            None => ServerConfig::default(),
        };
        self.insert_backend(key, backend, &srv, now_ms)
    }

    /// Ends a reload: the new config is in force.
    pub fn finish_reload(&mut self, new_config: &Config)
        ensures
            final(self).config@ == new_config@,
            final(self).config.servers.pairs() == new_config.servers.pairs(),
            final(self).config.custom_tools.pairs() == new_config.custom_tools.pairs(),
            final(self).slots == old(self).slots,
    {
        self.config = new_config.duplicate();
    }
}

// ---------------------------------------------------------------------------
// Laws
// ---------------------------------------------------------------------------

/// A name is listed as gone if and only if an enabled server of the old config
/// has it and the new config does not.
pub proof fn gone_means_gone(
    old_servers: Seq<(Seq<char>, ServerView)>,
    new_servers: Map<Seq<char>, ServerView>,
    process_env: Texts,
    name: Seq<char>,
)
    ensures
        gone_servers(old_servers, new_servers, process_env).contains(name) == (
        !new_servers.dom().contains(name) && exists|i: int|
            0 <= i < old_servers.len() && (#[trigger] old_servers[i]).0 == name
                && !crate::config::disabled(name, old_servers[i].1, process_env)),
    decreases old_servers.len(),
{
    if old_servers.len() > 0 {
        let t = old_servers.drop_last();
        gone_means_gone(t, new_servers, process_env, name);
        let before = gone_servers(t, new_servers, process_env);
        let all = gone_servers(old_servers, new_servers, process_env);
        let last = old_servers.last();
        assert(old_servers[old_servers.len() - 1] == last);
        if all.contains(name) {
            let k = choose|k: int| 0 <= k < all.len() && all[k] == name;
            if k < before.len() {
                assert(before[k] == name);
                let i = choose|i: int|
                    0 <= i < t.len() && (#[trigger] t[i]).0 == name && !crate::config::disabled(
                        name,
                        t[i].1,
                        process_env,
                    );
                assert(old_servers[i].0 == name);
            }
        }
        if !new_servers.dom().contains(name) && exists|i: int|
            0 <= i < old_servers.len() && (#[trigger] old_servers[i]).0 == name
                && !crate::config::disabled(name, old_servers[i].1, process_env) {
            let i = choose|i: int|
                0 <= i < old_servers.len() && (#[trigger] old_servers[i]).0 == name
                    && !crate::config::disabled(name, old_servers[i].1, process_env);
            if i < t.len() {
                assert(t[i].0 == name);
                let k = choose|k: int| 0 <= k < before.len() && before[k] == name;
                assert(all[k] == name);
            } else {
                assert(all[before.len() as int] == name);
            }
        }
    }
}

/// A server that keeps its config is not listed as changed.
pub proof fn unchanged_is_not_changed(
    old_servers: Seq<(Seq<char>, ServerView)>,
    new_servers: Map<Seq<char>, ServerView>,
    process_env: Texts,
    name: Seq<char>,
)
    requires
        forall|i: int|
            0 <= i < old_servers.len() && (#[trigger] old_servers[i]).0 == name
                ==> new_servers.dom().contains(name) && new_servers[name] == old_servers[i].1,
    ensures
        !changed_servers(old_servers, new_servers, process_env).contains(name),
        !gone_servers(old_servers, new_servers, process_env).contains(name),
    decreases old_servers.len(),
{
    if old_servers.len() > 0 {
        let t = old_servers.drop_last();
        assert forall|i: int| 0 <= i < t.len() && (#[trigger] t[i]).0 == name implies
            new_servers.dom().contains(name) && new_servers[name] == t[i].1 by {
            assert(old_servers[i].0 == name);
        }
        unchanged_is_not_changed(t, new_servers, process_env, name);
        assert(old_servers[old_servers.len() - 1] == old_servers.last());
        let before = changed_servers(t, new_servers, process_env);
        let all = changed_servers(old_servers, new_servers, process_env);
        if all.contains(name) {
            let k = choose|k: int| 0 <= k < all.len() && all[k] == name;
            if k < before.len() {
                assert(before[k] == name);
            }
        }
        let before = gone_servers(t, new_servers, process_env);
        let all = gone_servers(old_servers, new_servers, process_env);
        if all.contains(name) {
            let k = choose|k: int| 0 <= k < all.len() && all[k] == name;
            if k < before.len() {
                assert(before[k] == name);
            }
        }
    }
}

/// A reload leaves every backend of a server whose config stays the same.
pub proof fn reload_leaves_the_unchanged(
    old_config: &Config,
    new_config: &Config,
    process_env: Texts,
    s: Slot,
)
    requires
        crate::names::distinct_names(old_config.servers.pairs()),
        old_config@.servers.dom().contains(s.key.server@),
        new_config@.servers.dom().contains(s.key.server@),
        old_config@.servers[s.key.server@] == new_config@.servers[s.key.server@],
    ensures
        reload_leaves(old_config, new_config, process_env)(s),
{
    let name = s.key.server@;
    let pairs = old_config.servers.pairs();
    assert forall|i: int| 0 <= i < pairs.len() && (#[trigger] pairs[i]).0 == name implies
        new_config@.servers.dom().contains(name) && new_config@.servers[name] == pairs[i].1 by {
        crate::names::lemma_place(pairs, i);
    }
    unchanged_is_not_changed(pairs, new_config@.servers, process_env, name);
}

/// A reload leaves the backends of sessions and credentials of every server
/// that the new config still has.
pub proof fn reload_leaves_other_scopes(
    old_config: &Config,
    new_config: &Config,
    process_env: Texts,
    s: Slot,
)
    requires
        new_config@.servers.dom().contains(s.key.server@),
        s.key.scope@ != "__default__"@,
    ensures
        reload_leaves(old_config, new_config, process_env)(s),
{
    gone_means_gone(
        old_config.servers.pairs(),
        new_config@.servers,
        process_env,
        s.key.server@,
    );
}

/// A reload kills every backend, in any scope, of an enabled server that the
/// new config no longer has.
pub proof fn reload_kills_the_gone(
    old_config: &Config,
    new_config: &Config,
    process_env: Texts,
    s: Slot,
)
    requires
        crate::names::distinct_names(old_config.servers.pairs()),
        old_config@.servers.dom().contains(s.key.server@),
        !crate::config::disabled(
            s.key.server@,
            old_config@.servers[s.key.server@],
            process_env,
        ),
        !new_config@.servers.dom().contains(s.key.server@),
    ensures
        reload_kills(old_config, new_config, process_env)(s),
{
    let pairs = old_config.servers.pairs();
    let p = crate::names::place_of(pairs, s.key.server@);
    crate::names::lemma_place(pairs, p);
    assert(pairs[p].0 == s.key.server@);
    gone_means_gone(pairs, new_config@.servers, process_env, s.key.server@);
}

/// A name is listed as changed if and only if an enabled server of the old
/// config has it and the new config has another server under it.
pub proof fn changed_means_changed(
    old_servers: Seq<(Seq<char>, ServerView)>,
    new_servers: Map<Seq<char>, ServerView>,
    process_env: Texts,
    name: Seq<char>,
)
    ensures
        changed_servers(old_servers, new_servers, process_env).contains(name) == (
        new_servers.dom().contains(name) && exists|i: int|
            0 <= i < old_servers.len() && (#[trigger] old_servers[i]).0 == name
                && !crate::config::disabled(name, old_servers[i].1, process_env)
                && old_servers[i].1 != new_servers[name]),
    decreases old_servers.len(),
{
    if old_servers.len() > 0 {
        let t = old_servers.drop_last();
        changed_means_changed(t, new_servers, process_env, name);
        let before = changed_servers(t, new_servers, process_env);
        let last = old_servers.last();
        assert(old_servers[old_servers.len() - 1] == last);
        crate::picked::lemma_push_contains(before, last.0, name);
        if before.contains(name) {
            let i = choose|i: int|
                0 <= i < t.len() && (#[trigger] t[i]).0 == name && !crate::config::disabled(
                    name,
                    t[i].1,
                    process_env,
                ) && t[i].1 != new_servers[name];
            assert(old_servers[i] == t[i]);
        }
        if new_servers.dom().contains(name) && exists|i: int|
            0 <= i < old_servers.len() && (#[trigger] old_servers[i]).0 == name
                && !crate::config::disabled(name, old_servers[i].1, process_env)
                && old_servers[i].1 != new_servers[name] {
            let i = choose|i: int|
                0 <= i < old_servers.len() && (#[trigger] old_servers[i]).0 == name
                    && !crate::config::disabled(name, old_servers[i].1, process_env)
                    && old_servers[i].1 != new_servers[name];
            if i < t.len() {
                assert(t[i] == old_servers[i]);
            }
        }
    }
}

/// A name is listed as added if and only if an enabled server of the new config
/// has it and the old config does not.
pub proof fn added_means_added(
    old_servers: Map<Seq<char>, ServerView>,
    new_servers: Seq<(Seq<char>, ServerView)>,
    process_env: Texts,
    name: Seq<char>,
)
    ensures
        added_servers(old_servers, new_servers, process_env).contains(name) == (
        !old_servers.dom().contains(name) && exists|i: int|
            0 <= i < new_servers.len() && (#[trigger] new_servers[i]).0 == name
                && !crate::config::disabled(name, new_servers[i].1, process_env)),
    decreases new_servers.len(),
{
    if new_servers.len() > 0 {
        let t = new_servers.drop_last();
        added_means_added(old_servers, t, process_env, name);
        let before = added_servers(old_servers, t, process_env);
        let last = new_servers.last();
        assert(new_servers[new_servers.len() - 1] == last);
        crate::picked::lemma_push_contains(before, last.0, name);
        if before.contains(name) {
            let i = choose|i: int|
                0 <= i < t.len() && (#[trigger] t[i]).0 == name && !crate::config::disabled(
                    name,
                    t[i].1,
                    process_env,
                );
            assert(new_servers[i] == t[i]);
        }
        if !old_servers.dom().contains(name) && exists|i: int|
            0 <= i < new_servers.len() && (#[trigger] new_servers[i]).0 == name
                && !crate::config::disabled(name, new_servers[i].1, process_env) {
            let i = choose|i: int|
                0 <= i < new_servers.len() && (#[trigger] new_servers[i]).0 == name
                    && !crate::config::disabled(name, new_servers[i].1, process_env);
            if i < t.len() {
                assert(t[i] == new_servers[i]);
            }
        }
    }
}

/// The enabled servers of a config, by their names.
proof fn lemma_enabled(config: &Config, process_env: Texts, name: Seq<char>)
    requires
        crate::names::distinct_names(config.servers.pairs()),
    ensures
        config@.servers.dom().contains(name) ==> exists|i: int|
            0 <= i < config.servers.pairs().len() && (#[trigger] config.servers.pairs()[i]).0
                == name && config.servers.pairs()[i].1 == config@.servers[name],
        forall|i: int|
            0 <= i < config.servers.pairs().len() && (#[trigger] config.servers.pairs()[i]).0
                == name ==> config@.servers.dom().contains(name) && config.servers.pairs()[i].1
                == config@.servers[name],
{
    let pairs = config.servers.pairs();
    if config@.servers.dom().contains(name) {
        let p = crate::names::place_of(pairs, name);
        crate::names::lemma_place(pairs, p);
        assert(pairs[p].0 == name);
    }
    assert forall|i: int| 0 <= i < pairs.len() && (#[trigger] pairs[i]).0 == name implies
        config@.servers.dom().contains(name) && pairs[i].1 == config@.servers[name] by {
        crate::names::lemma_place(pairs, i);
    }
}

/// A plan restarts an enabled server of the old config if and only if the new
/// config has a server of that name that differs in any field.
pub proof fn a_difference_in_any_field_is_a_change(
    plan: ReloadPlan,
    old_config: &Config,
    new_config: &Config,
    process_env: Texts,
    name: Seq<char>,
)
    requires
        plan.is_for(old_config, new_config, process_env),
        crate::names::distinct_names(old_config.servers.pairs()),
        old_config@.servers.dom().contains(name),
        !crate::config::disabled(name, old_config@.servers[name], process_env),
    ensures
        crate::text::texts(plan.restart@).contains(name) == (new_config@.servers.dom().contains(
            name,
        ) && {
            let a = old_config@.servers[name];
            let b = new_config@.servers[name];
            ||| a.install != b.install
            ||| a.runtime != b.runtime
            ||| a.command != b.command
            ||| a.args != b.args
            ||| a.env != b.env
            ||| a.env_toggle != b.env_toggle
            ||| a.shared != b.shared
            ||| a.timeout_secs != b.timeout_secs
            ||| a.idle_timeout_secs != b.idle_timeout_secs
            ||| a.auto_restart != b.auto_restart
            ||| a.max_restarts != b.max_restarts
            ||| a.include_tools != b.include_tools
            ||| a.exclude_tools != b.exclude_tools
            ||| a.tool_aliases != b.tool_aliases
        }),
        crate::text::texts(plan.remove@).contains(name) == !new_config@.servers.dom().contains(
            name,
        ),
        !crate::text::texts(plan.add@).contains(name),
{
    let pairs = old_config.servers.pairs();
    lemma_enabled(old_config, process_env, name);
    changed_means_changed(pairs, new_config@.servers, process_env, name);
    gone_means_gone(pairs, new_config@.servers, process_env, name);
    added_means_added(old_config@.servers, new_config.servers.pairs(), process_env, name);
}

/// A plan adds a server that the old config does not have if and only if the
/// new config has it enabled; a server that was disabled, or that there was
/// not, is neither removed nor restarted.
pub proof fn a_new_server_is_added(
    plan: ReloadPlan,
    old_config: &Config,
    new_config: &Config,
    process_env: Texts,
    name: Seq<char>,
)
    requires
        plan.is_for(old_config, new_config, process_env),
        crate::names::distinct_names(old_config.servers.pairs()),
        crate::names::distinct_names(new_config.servers.pairs()),
        !old_config@.servers.dom().contains(name) || crate::config::disabled(
            name,
            old_config@.servers[name],
            process_env,
        ),
    ensures
        crate::text::texts(plan.add@).contains(name) == (!old_config@.servers.dom().contains(name)
            && new_config@.servers.dom().contains(name) && !crate::config::disabled(
            name,
            new_config@.servers[name],
            process_env,
        )),
        !crate::text::texts(plan.restart@).contains(name),
        !crate::text::texts(plan.remove@).contains(name),
{
    let pairs = old_config.servers.pairs();
    lemma_enabled(old_config, process_env, name);
    lemma_enabled(new_config, process_env, name);
    changed_means_changed(pairs, new_config@.servers, process_env, name);
    gone_means_gone(pairs, new_config@.servers, process_env, name);
    added_means_added(old_config@.servers, new_config.servers.pairs(), process_env, name);
}

/// A plan says that custom tools changed if and only if they did.
pub proof fn changed_custom_tools_are_noticed(
    plan: ReloadPlan,
    old_config: &Config,
    new_config: &Config,
    process_env: Texts,
)
    requires
        plan.is_for(old_config, new_config, process_env),
    ensures
        plan.custom_changed == (old_config.custom_tools@ != new_config.custom_tools@),
{
}

/// A reload kills the backend in the default scope of an enabled server that
/// the new config changes, and no backend in the pool survives that is killed.
pub proof fn reload_kills_the_changed(
    old_config: &Config,
    new_config: &Config,
    process_env: Texts,
    s: Slot,
)
    requires
        crate::names::distinct_names(old_config.servers.pairs()),
        old_config@.servers.dom().contains(s.key.server@),
        !crate::config::disabled(
            s.key.server@,
            old_config@.servers[s.key.server@],
            process_env,
        ),
        new_config@.servers.dom().contains(s.key.server@),
        old_config@.servers[s.key.server@] != new_config@.servers[s.key.server@],
        s.key.scope@ == "__default__"@,
    ensures
        reload_kills(old_config, new_config, process_env)(s),
        !reload_leaves(old_config, new_config, process_env)(s),
{
    lemma_enabled(old_config, process_env, s.key.server@);
    changed_means_changed(
        old_config.servers.pairs(),
        new_config@.servers,
        process_env,
        s.key.server@,
    );
}

/// A backend is either killed by a reload or left.
pub proof fn reload_kills_or_leaves(
    old_config: &Config,
    new_config: &Config,
    process_env: Texts,
    s: Slot,
)
    ensures
        reload_kills(old_config, new_config, process_env)(s) != reload_leaves(
            old_config,
            new_config,
            process_env,
        )(s),
{
}

proof fn lemma_global_starts(
    names: Seq<Seq<char>>,
    servers: Map<Seq<char>, ServerView>,
    process_env: Texts,
    name: Seq<char>,
    scope: Seq<char>,
)
    ensures
        global_starts(names, servers, process_env).contains((name, scope)) == (names.contains(name)
            && scope == "__default__"@ && servers.dom().contains(name) && servers[name].shared
            == Sharing::Global && !crate::config::disabled(name, servers[name], process_env)),
    decreases names.len(),
{
    if names.len() > 0 {
        let t = names.drop_last();
        let last = names.last();
        lemma_global_starts(t, servers, process_env, name, scope);
        assert(names =~= t.push(last));
        crate::picked::lemma_push_contains(t, last, name);
        let keys = crate::pool::env_key::env_keys(servers[last]);
        crate::pool::env_key::default_scope_means_no_overrides(keys, no_texts());
        crate::picked::lemma_push_contains(
            global_starts(t, servers, process_env),
            (last, "__default__"@),
            (name, scope),
        );
    }
}

/// A reload starts exactly the backends, in the default scope, of the enabled
/// global servers of the new config that the old config had enabled otherwise
/// or did not have.
pub proof fn reload_starts_the_changed_and_the_new(
    old_config: &Config,
    new_config: &Config,
    process_env: Texts,
    name: Seq<char>,
    scope: Seq<char>,
)
    requires
        crate::names::distinct_names(old_config.servers.pairs()),
        crate::names::distinct_names(new_config.servers.pairs()),
    ensures
        reload_starts(old_config, new_config, process_env).contains((name, scope)) == (scope
            == "__default__"@ && new_config@.servers.dom().contains(name)
            && new_config@.servers[name].shared == Sharing::Global && !crate::config::disabled(
            name,
            new_config@.servers[name],
            process_env,
        ) && (old_config@.servers.dom().contains(name) ==> !crate::config::disabled(
            name,
            old_config@.servers[name],
            process_env,
        ) && old_config@.servers[name] != new_config@.servers[name])),
{
    let changed = changed_servers(old_config.servers.pairs(), new_config@.servers, process_env);
    let added = added_servers(old_config@.servers, new_config.servers.pairs(), process_env);
    lemma_enabled(old_config, process_env, name);
    lemma_enabled(new_config, process_env, name);
    changed_means_changed(old_config.servers.pairs(), new_config@.servers, process_env, name);
    added_means_added(old_config@.servers, new_config.servers.pairs(), process_env, name);
    lemma_global_starts(changed, new_config@.servers, process_env, name, scope);
    lemma_global_starts(added, new_config@.servers, process_env, name, scope);
    crate::picked::lemma_add_contains(
        global_starts(changed, new_config@.servers, process_env),
        global_starts(added, new_config@.servers, process_env),
        (name, scope),
    );
}

/// A reload kills exactly the backends of enabled servers of the old config that
/// the new config does not have, and those in the default scope of the enabled
/// servers that it has otherwise; it leaves the other backends in the pool.
pub proof fn reload_kills_the_gone_and_the_changed(
    r: Reload,
    old_config: &Config,
    new_config: &Config,
    process_env: Texts,
    slots: Seq<Slot>,
    after: Seq<Slot>,
    s: Slot,
)
    requires
        reload_begins(r, old_config, new_config, process_env, slots, after),
        crate::names::distinct_names(old_config.servers.pairs()),
        slots.contains(s),
    ensures
        ({
            let name = s.key.server@;
            let prior = old_config@.servers;
            let next = new_config@.servers;
            let ends = prior.dom().contains(name) && !crate::config::disabled(
                name,
                prior[name],
                process_env,
            ) && (!next.dom().contains(name) || (prior[name] != next[name] && s.key.scope@
                == "__default__"@));
            &&& r.removed@.contains(s) == ends
            &&& after.contains(s) == !ends
        }),
{
    let name = s.key.server@;
    let pairs = old_config.servers.pairs();
    lemma_enabled(old_config, process_env, name);
    changed_means_changed(pairs, new_config@.servers, process_env, name);
    gone_means_gone(pairs, new_config@.servers, process_env, name);
    let dead = reload_kills(old_config, new_config, process_env);
    let alive = reload_leaves(old_config, new_config, process_env);
    crate::picked::lemma_picked(slots, dead);
    crate::picked::lemma_picked(slots, alive);
    assert(alive(s) == !dead(s));
}

/// A reload starts exactly the backends, in the default scope, of the enabled
/// global servers of the new config that the old config had enabled otherwise or
/// did not have.
pub proof fn begun_reload_starts_the_changed_and_the_new(
    r: Reload,
    old_config: &Config,
    new_config: &Config,
    process_env: Texts,
    slots: Seq<Slot>,
    after: Seq<Slot>,
    name: Seq<char>,
    scope: Seq<char>,
)
    requires
        reload_begins(r, old_config, new_config, process_env, slots, after),
        crate::names::distinct_names(old_config.servers.pairs()),
        crate::names::distinct_names(new_config.servers.pairs()),
    ensures
        keys_view(r.start@).contains((name, scope)) == (scope == "__default__"@
            && new_config@.servers.dom().contains(name) && new_config@.servers[name].shared
            == Sharing::Global && !crate::config::disabled(
            name,
            new_config@.servers[name],
            process_env,
        ) && (old_config@.servers.dom().contains(name) ==> !crate::config::disabled(
            name,
            old_config@.servers[name],
            process_env,
        ) && old_config@.servers[name] != new_config@.servers[name])),
        r.custom_changed == (old_config@.custom_tools != new_config@.custom_tools),
{
    reload_starts_the_changed_and_the_new(old_config, new_config, process_env, name, scope);
    if old_config@ == new_config@ {
        assert(keys_view(r.start@).len() == 0);
    }
}

} // verus!
