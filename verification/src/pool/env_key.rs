//! The scope part of a pool key.
//!
//! Each backend of the pool has the key `(server, scope)`, where the scope
//! depends on the server's sharing mode:
//!
//! - global: [`DEFAULT_ENV_KEY`], one instance for all;
//! - session: `session:<id>`, one per session;
//! - credentials: `env:<hash>` of the client's overrides that the server
//!   refers to, one per set of credentials.
use vstd::prelude::*;

use crate::config::{ServerConfig, ServerView, Sharing};
use crate::expand::{Texts, extract_var_names};
use crate::names::NameMap;
use crate::text::{cat, hex_of, join, text_before};
use crate::util::fnv1a;

verus! {

/// The scope without overrides.
pub const DEFAULT_ENV_KEY: &'static str = "__default__";

/// What the scope of a session begins with.
pub const SESSION_KEY_PREFIX: &'static str = "session:";

/// What the scope of a set of credentials begins with.
pub const ENV_KEY_PREFIX: &'static str = "env:";

// ---------------------------------------------------------------------------
// The variables that a server refers to
// ---------------------------------------------------------------------------

/// A variable of the server's environment refers to `key`.
pub open spec fn env_refers(env: Texts, key: Seq<char>) -> bool {
    exists|name: Seq<char>| #[trigger]
        env.dom().contains(name) && crate::expand::var_names(env[name]).contains(key)
}

/// An argument of the server refers to `key`.
pub open spec fn args_refer(args: Seq<Seq<char>>, key: Seq<char>) -> bool {
    exists|i: int|
        0 <= i < args.len() && crate::expand::var_names(#[trigger] args[i]).contains(key)
}

/// The server refers to `key` as `${KEY}`.
pub open spec fn refers_to(srv: ServerView, key: Seq<char>) -> bool {
    env_refers(srv.env, key) || args_refer(srv.args, key)
}

/// The names stand in order, each once.
pub open spec fn in_order(keys: Seq<Seq<char>>) -> bool {
    forall|i: int, j: int|
        #![trigger keys[i], keys[j]]
        0 <= i < j < keys.len() ==> crate::text::comes_before(keys[i], keys[j])
}

/// `keys` are the variables that the server refers to, in order, each once.
pub open spec fn lists_keys(keys: Seq<Seq<char>>, srv: ServerView) -> bool {
    &&& in_order(keys)
    &&& forall|key: Seq<char>| #[trigger] keys.contains(key) == refers_to(srv, key)
}

/// The variables that the server refers to, in order, each once.
pub open spec fn env_keys(srv: ServerView) -> Seq<Seq<char>> {
    choose|keys: Seq<Seq<char>>| lists_keys(keys, srv)
}

/// Two lists in order with the same names are one.
pub proof fn lemma_order_unique(a: Seq<Seq<char>>, b: Seq<Seq<char>>)
    requires
        in_order(a),
        in_order(b),
        forall|key: Seq<char>| #[trigger] a.contains(key) == b.contains(key),
    ensures
        a == b,
    decreases a.len(),
{
    if a.len() == 0 {
        if b.len() > 0 {
            assert(b.contains(b[0]));
            assert(a.contains(b[0]));
        }
        assert(a =~= b);
    } else {
        assert(a.contains(a[0]));
        assert(b.contains(a[0]));
        let j = choose|j: int| 0 <= j < b.len() && b[j] == a[0];
        assert(b.contains(b[0]));
        assert(a.contains(b[0]));
        let k = choose|k: int| 0 <= k < a.len() && a[k] == b[0];
        if j > 0 {
            assert(crate::text::comes_before(b[0], b[j]));
            if k > 0 {
                assert(crate::text::comes_before(a[0], a[k]));
                crate::text::lemma_order_transitive(a[0], b[0], a[0]);
            }
            crate::text::lemma_order_total(a[0], a[0]);
        }
        assert(a[0] == b[0]);
        let ta = a.subrange(1, a.len() as int);
        let tb = b.subrange(1, b.len() as int);
        assert forall|key: Seq<char>| #[trigger] ta.contains(key) == tb.contains(key) by {
            if ta.contains(key) {
                let i = choose|i: int| 0 <= i < ta.len() && ta[i] == key;
                assert(a[i + 1] == key);
                assert(crate::text::comes_before(a[0], a[i + 1]));
                crate::text::lemma_order_total(a[0], a[0]);
                assert(a.contains(key));
                assert(b.contains(key));
                let m = choose|m: int| 0 <= m < b.len() && b[m] == key;
                assert(m != 0);
                assert(tb[m - 1] == key);
            }
            if tb.contains(key) {
                let i = choose|i: int| 0 <= i < tb.len() && tb[i] == key;
                assert(b[i + 1] == key);
                assert(crate::text::comes_before(b[0], b[i + 1]));
                crate::text::lemma_order_total(b[0], b[0]);
                assert(b.contains(key));
                assert(a.contains(key));
                let m = choose|m: int| 0 <= m < a.len() && a[m] == key;
                assert(m != 0);
                assert(ta[m - 1] == key);
            }
        }
        assert(in_order(ta)) by {
            assert forall|x: int, y: int|
                0 <= x < y < ta.len() implies crate::text::comes_before(ta[x], ta[y]) by {
                assert(crate::text::comes_before(a[x + 1], a[y + 1]));
            }
        }
        assert(in_order(tb)) by {
            assert forall|x: int, y: int|
                0 <= x < y < tb.len() implies crate::text::comes_before(tb[x], tb[y]) by {
                assert(crate::text::comes_before(b[x + 1], b[y + 1]));
            }
        }
        lemma_order_unique(ta, tb);
        assert(a =~= seq![a[0]] + ta);
        assert(b =~= seq![b[0]] + tb);
    }
}

/// There is only one list of the variables that a server refers to.
pub proof fn lemma_keys_unique(keys: Seq<Seq<char>>, srv: ServerView)
    requires
        lists_keys(keys, srv),
    ensures
        env_keys(srv) == keys,
{
    let other = env_keys(srv);
    assert(lists_keys(other, srv));
    assert forall|key: Seq<char>| #[trigger] keys.contains(key) == other.contains(key) by {
        assert(keys.contains(key) == refers_to(srv, key));
        assert(other.contains(key) == refers_to(srv, key));
    }
    lemma_order_unique(keys, other);
}

/// Puts `key` into a list in order, unless it is there.
pub fn insert_in_order(keys: &mut Vec<String>, key: String)
    requires
        in_order(crate::text::texts(old(keys)@)),
    ensures
        in_order(crate::text::texts(final(keys)@)),
        forall|k: Seq<char>| #[trigger]
            crate::text::texts(final(keys)@).contains(k) == (crate::text::texts(
                old(keys)@,
            ).contains(k) || k == key@),
{
    let ghost before = crate::text::texts(keys@);
    let ghost name = key@;
    let n: usize = keys.len();
    let mut i: usize = 0;
    while i < n && text_before(keys[i].as_str(), key.as_str())
        invariant
            before == crate::text::texts(keys@),
            n == keys@.len(),
            i <= n,
            name == key@,
            forall|j: int| 0 <= j < i ==> crate::text::comes_before(#[trigger] before[j], name),
        decreases n - i,
    {
        assert(before[i as int] == keys@[i as int]@);
        i = i + 1;
    }
    if i < n && keys[i] == key {
        proof {
            assert(before[i as int] == name);
            assert(before.contains(name));
        }
        return;
    }
    keys.insert(i, key);
    proof {
        let after = crate::text::texts(keys@);
        assert(after =~= before.insert(i as int, name));
        if i < n {
            crate::text::lemma_order_total(before[i as int], name);
            assert(crate::text::comes_before(name, before[i as int]));
        }
        assert forall|x: int, y: int|
            0 <= x < y < after.len() implies crate::text::comes_before(after[x], after[y]) by {
            if x < i && y < i {
                assert(crate::text::comes_before(before[x], before[y]));
            } else if x < i && y == i {
            } else if x < i && y > i {
                assert(crate::text::comes_before(before[x], before[y - 1]));
            } else if x == i {
                if y - 1 > i {
                    assert(crate::text::comes_before(before[i as int], before[y - 1]));
                    crate::text::lemma_order_transitive(
                        name,
                        before[i as int],
                        before[y - 1],
                    );
                }
            } else {
                assert(crate::text::comes_before(before[x - 1], before[y - 1]));
            }
        }
        assert forall|k: Seq<char>| #[trigger] after.contains(k) == (before.contains(k) || k
            == name) by {
            if after.contains(k) {
                let p = choose|p: int| 0 <= p < after.len() && after[p] == k;
                if p < i {
                    assert(before[p] == k);
                } else if p > i {
                    assert(before[p - 1] == k);
                }
            }
            if before.contains(k) {
                let p = choose|p: int| 0 <= p < before.len() && before[p] == k;
                if p < i {
                    assert(after[p] == k);
                } else {
                    assert(after[p + 1] == k);
                }
            }
            if k == name {
                assert(after[i as int] == k);
            }
        }
    }
}

/// Puts each variable that `s` refers to into a list in order.
fn insert_names(keys: &mut Vec<String>, s: &str)
    requires
        in_order(crate::text::texts(old(keys)@)),
    ensures
        in_order(crate::text::texts(final(keys)@)),
        forall|k: Seq<char>| #[trigger]
            crate::text::texts(final(keys)@).contains(k) == (crate::text::texts(
                old(keys)@,
            ).contains(k) || crate::expand::var_names(s@).contains(k)),
{
    let ghost before = crate::text::texts(keys@);
    let names = extract_var_names(s);
    let ghost all = crate::text::texts(names@);
    let mut i: usize = 0;
    while i < names.len()
        invariant
            all == crate::text::texts(names@),
            i <= names@.len(),
            in_order(crate::text::texts(keys@)),
            forall|k: Seq<char>| #[trigger]
                crate::text::texts(keys@).contains(k) == (before.contains(k) || all.take(
                    i as int,
                ).contains(k)),
        decreases names@.len() - i,
    {
        insert_in_order(keys, names[i].clone());
        proof {
            assert forall|k: Seq<char>| #[trigger] all.take(i + 1).contains(k) == (all.take(
                i as int,
            ).contains(k) || k == all[i as int]) by {
                assert(all.take(i + 1) =~= all.take(i as int).push(all[i as int]));
                lemma_push_contains(all.take(i as int), all[i as int], k);
            }
        }
        i = i + 1;
    }
    assert(all.take(all.len() as int) =~= all);
}

proof fn lemma_push_contains(s: Seq<Seq<char>>, x: Seq<char>, k: Seq<char>)
    ensures
        s.push(x).contains(k) == (s.contains(k) || k == x),
{
    let t = s.push(x);
    if s.contains(k) {
        let p = choose|p: int| 0 <= p < s.len() && s[p] == k;
        assert(t[p] == k);
    }
    assert(t[s.len() as int] == x);
    if t.contains(k) {
        let p = choose|p: int| 0 <= p < t.len() && t[p] == k;
        if p < s.len() {
            assert(s[p] == k);
        }
    }
}

/// The variables that a server's environment and arguments refer to as
/// `${VAR}`, in order, each once.
pub fn relevant_env_keys(srv: &ServerConfig) -> (r: Vec<String>)
    ensures
        lists_keys(crate::text::texts(r@), srv@),
        crate::text::texts(r@) == env_keys(srv@),
{
    let mut keys: Vec<String> = Vec::new();
    let n: usize = srv.env.len();
    let ghost pairs = srv.env.pairs();
    let mut i: usize = 0;
    while i < n
        invariant
            pairs == srv.env.pairs(),
            n == pairs.len(),
            i <= n,
            in_order(crate::text::texts(keys@)),
            forall|k: Seq<char>| #[trigger]
                crate::text::texts(keys@).contains(k) == (exists|j: int|
                    0 <= j < i && crate::expand::var_names(#[trigger] pairs[j].1).contains(k)),
        decreases n - i,
    {
        let ghost before = crate::text::texts(keys@);
        insert_names(&mut keys, srv.env.value_at(i).as_str());
        proof {
            assert forall|k: Seq<char>| #[trigger] crate::text::texts(keys@).contains(k) == (
            exists|j: int|
                0 <= j < i + 1 && crate::expand::var_names(#[trigger] pairs[j].1).contains(
                    k,
                )) by {
                if before.contains(k) {
                    let j = choose|j: int|
                        0 <= j < i && crate::expand::var_names(#[trigger] pairs[j].1).contains(k);
                    assert(crate::expand::var_names(pairs[j].1).contains(k));
                }
                if crate::expand::var_names(pairs[i as int].1).contains(k) {
                    assert(crate::expand::var_names(pairs[i as int].1).contains(k));
                }
            }
        }
        i = i + 1;
    }
    proof {
        assert forall|k: Seq<char>| env_refers(srv@.env, k) == (exists|j: int|
            0 <= j < n && crate::expand::var_names(#[trigger] pairs[j].1).contains(k)) by {
            if env_refers(srv@.env, k) {
                let name = choose|name: Seq<char>| #[trigger]
                    srv@.env.dom().contains(name) && crate::expand::var_names(
                        srv@.env[name],
                    ).contains(k);
                let p = crate::names::place_of(pairs, name);
                assert(crate::names::has_name(pairs, name));
                crate::names::lemma_place(pairs, p);
                assert(crate::expand::var_names(pairs[p].1).contains(k));
            }
            if exists|j: int|
                0 <= j < n && crate::expand::var_names(#[trigger] pairs[j].1).contains(k) {
                let j = choose|j: int|
                    0 <= j < n && crate::expand::var_names(#[trigger] pairs[j].1).contains(k);
                crate::names::lemma_place(pairs, j);
                assert(srv@.env.dom().contains(pairs[j].0));
            }
        }
    }
    let ghost from_env = crate::text::texts(keys@);
    let ghost args = srv@.args;
    let mut i: usize = 0;
    while i < srv.args.len()
        invariant
            args == crate::text::texts(srv.args@),
            i <= srv.args@.len(),
            in_order(crate::text::texts(keys@)),
            forall|k: Seq<char>| #[trigger]
                crate::text::texts(keys@).contains(k) == (from_env.contains(k) || exists|j: int|
                    0 <= j < i && crate::expand::var_names(#[trigger] args[j]).contains(k)),
        decreases srv.args@.len() - i,
    {
        let ghost before = crate::text::texts(keys@);
        insert_names(&mut keys, srv.args[i].as_str());
        proof {
            assert forall|k: Seq<char>| #[trigger] crate::text::texts(keys@).contains(k) == (
            from_env.contains(k) || exists|j: int|
                0 <= j < i + 1 && crate::expand::var_names(#[trigger] args[j]).contains(k)) by {
                if before.contains(k) && !from_env.contains(k) {
                    let j = choose|j: int|
                        0 <= j < i && crate::expand::var_names(#[trigger] args[j]).contains(k);
                    assert(crate::expand::var_names(args[j]).contains(k));
                }
                if crate::expand::var_names(args[i as int]).contains(k) {
                    assert(crate::expand::var_names(args[i as int]).contains(k));
                }
            }
        }
        i = i + 1;
    }
    proof {
        let listed = crate::text::texts(keys@);
        assert forall|key: Seq<char>| #[trigger] listed.contains(key) == refers_to(
            srv@,
            key,
        ) by {
            assert(from_env.contains(key) == env_refers(srv@.env, key));
        }
        lemma_keys_unique(listed, srv@);
    }
    keys
}

// ---------------------------------------------------------------------------
// Scopes
// ---------------------------------------------------------------------------

/// `key=value` for each of `keys` that is overridden.
pub open spec fn credentials(keys: Seq<Seq<char>>, overrides: Texts) -> Seq<Seq<char>>
    decreases keys.len(),
{
    if keys.len() == 0 {
        Seq::empty()
    } else {
        let before = credentials(keys.drop_last(), overrides);
        let key = keys.last();
        if overrides.dom().contains(key) {
            before.push(key + "="@ + overrides[key])
        } else {
            before
        }
    }
}

/// The scope of a set of overrides, seen by a server that refers to `keys`.
pub open spec fn credential_scope(keys: Seq<Seq<char>>, overrides: Texts) -> Seq<char> {
    let parts = credentials(keys, overrides);
    if parts.len() == 0 {
        "__default__"@
    } else {
        "env:"@ + crate::text::hex(
            crate::util::text_hash(crate::text::joined(parts, "\0"@)) as int,
        )
    }
}

/// The scope of a client's overrides for a server: only the variables that the
/// server refers to count.
pub fn backend_env_key(srv: &ServerConfig, env_overrides: &NameMap<String>) -> (r: String)
    ensures
        r@ == credential_scope(env_keys(srv@), env_overrides@),
{
    let keys = relevant_env_keys(srv);
    let ghost all = crate::text::texts(keys@);
    let mut parts: Vec<String> = Vec::new();
    let mut i: usize = 0;
    assert(crate::text::texts(parts@) =~= credentials(all.take(0), env_overrides@));
    while i < keys.len()
        invariant
            all == crate::text::texts(keys@),
            i <= keys@.len(),
            crate::text::texts(parts@) == credentials(all.take(i as int), env_overrides@),
        decreases keys@.len() - i,
    {
        assert(all.take(i + 1).drop_last() =~= all.take(i as int));
        match env_overrides.get(keys[i].as_str()) {
            Some(v) => {
                let ghost before = parts@;
                let mut part = cat(keys[i].as_str(), "=");
                part.append(v.as_str());
                let ghost added = part@;
                parts.push(part);
                assert(crate::text::texts(parts@) =~= crate::text::texts(before).push(added));
            },
            None => {},
        }
        i = i + 1;
    }
    assert(all.take(all.len() as int) =~= all);
    if parts.len() == 0 {
        return DEFAULT_ENV_KEY.to_owned();
    }
    let s = join(&parts, "\0");
    let digits = hex_of(fnv1a(s.as_str()));
    cat(ENV_KEY_PREFIX, digits.as_str())
}

/// The scope of a server's backend for a client.
pub open spec fn scope_of(srv: ServerView, overrides: Texts, session: Seq<char>) -> Seq<char> {
    match srv.shared {
        Sharing::Global => "__default__"@,
        Sharing::Credentials => credential_scope(env_keys(srv), overrides),
        Sharing::Session => "session:"@ + session,
    }
}

/// The scope of a server's backend for a client.
pub fn sharing_env_key(srv: &ServerConfig, env_overrides: &NameMap<String>, session_id: &str) -> (r:
    String)
    ensures
        r@ == scope_of(srv@, env_overrides@, session_id@),
{
    match srv.shared {
        Sharing::Global => DEFAULT_ENV_KEY.to_owned(),
        Sharing::Credentials => backend_env_key(srv, env_overrides),
        Sharing::Session => cat(SESSION_KEY_PREFIX, session_id),
    }
}

/// The keys that neither the client nor the process environment provides.
pub open spec fn missing_keys(keys: Seq<Seq<char>>, overrides: Texts, process_env: Texts) -> Seq<
    Seq<char>,
>
    decreases keys.len(),
{
    if keys.len() == 0 {
        Seq::empty()
    } else {
        let before = missing_keys(keys.drop_last(), overrides, process_env);
        let key = keys.last();
        if overrides.dom().contains(key) || process_env.dom().contains(key) {
            before
        } else {
            before.push(key)
        }
    }
}

/// The variables that a server refers to and nobody provides.
pub fn missing_env_keys(
    srv: &ServerConfig,
    env_overrides: &NameMap<String>,
    process_env: &NameMap<String>,
) -> (r: Vec<String>)
    ensures
        crate::text::texts(r@) == missing_keys(env_keys(srv@), env_overrides@, process_env@),
{
    let keys = relevant_env_keys(srv);
    let ghost all = crate::text::texts(keys@);
    let mut out: Vec<String> = Vec::new();
    let mut i: usize = 0;
    assert(crate::text::texts(out@) =~= missing_keys(all.take(0), env_overrides@, process_env@));
    while i < keys.len()
        invariant
            all == crate::text::texts(keys@),
            i <= keys@.len(),
            crate::text::texts(out@) == missing_keys(
                all.take(i as int),
                env_overrides@,
                process_env@,
            ),
        decreases keys@.len() - i,
    {
        assert(all.take(i + 1).drop_last() =~= all.take(i as int));
        let key: &str = keys[i].as_str();
        if !env_overrides.contains(key) && !process_env.contains(key) {
            let ghost before = out@;
            out.push(keys[i].clone());
            assert(crate::text::texts(out@) =~= crate::text::texts(before).push(key@));
        }
        i = i + 1;
    }
    assert(all.take(all.len() as int) =~= all);
    out
}

// ---------------------------------------------------------------------------
// Laws
// ---------------------------------------------------------------------------

/// Two sets of overrides that agree on the variables that a server refers to
/// share one scope: other overrides do not matter.
pub proof fn only_referenced_overrides_matter(keys: Seq<Seq<char>>, a: Texts, b: Texts)
    requires
        forall|key: Seq<char>| #[trigger]
            keys.contains(key) ==> a.dom().contains(key) == b.dom().contains(key) && (
            a.dom().contains(key) ==> a[key] == b[key]),
    ensures
        credential_scope(keys, a) == credential_scope(keys, b),
{
    lemma_same_credentials(keys, a, b);
}

proof fn lemma_same_credentials(keys: Seq<Seq<char>>, a: Texts, b: Texts)
    requires
        forall|key: Seq<char>| #[trigger]
            keys.contains(key) ==> a.dom().contains(key) == b.dom().contains(key) && (
            a.dom().contains(key) ==> a[key] == b[key]),
    ensures
        credentials(keys, a) == credentials(keys, b),
    decreases keys.len(),
{
    if keys.len() > 0 {
        let t = keys.drop_last();
        assert(keys.contains(keys[keys.len() - 1]));
        assert forall|key: Seq<char>| #[trigger] t.contains(key) implies a.dom().contains(key)
            == b.dom().contains(key) && (a.dom().contains(key) ==> a[key] == b[key]) by {
            let i = choose|i: int| 0 <= i < t.len() && t[i] == key;
            assert(keys[i] == key);
            assert(keys.contains(key));
        }
        lemma_same_credentials(t, a, b);
    }
}

/// An override of a variable that the server does not refer to does not change
/// the scope.
pub proof fn unreferenced_override_is_ignored(
    srv: ServerView,
    overrides: Texts,
    key: Seq<char>,
    value: Seq<char>,
    session: Seq<char>,
)
    requires
        !env_keys(srv).contains(key),
    ensures
        scope_of(srv, overrides.insert(key, value), session) == scope_of(srv, overrides, session),
{
    only_referenced_overrides_matter(env_keys(srv), overrides.insert(key, value), overrides);
}

/// The scopes of two sessions differ, so a session's backends are its own.
pub proof fn sessions_have_scopes_of_their_own(
    srv: ServerView,
    a: Texts,
    b: Texts,
    s: Seq<char>,
    t: Seq<char>,
)
    requires
        srv.shared == Sharing::Session,
    ensures
        scope_of(srv, a, s) == scope_of(srv, b, t) <==> s == t,
{
    let p = "session:"@;
    if p + s == p + t {
        assert((p + s).subrange(p.len() as int, (p + s).len() as int) =~= s);
        assert((p + t).subrange(p.len() as int, (p + t).len() as int) =~= t);
    }
}

/// Sessions with matching credentials for a server share its backend.
pub proof fn matching_credentials_share(
    srv: ServerView,
    a: Texts,
    b: Texts,
    s: Seq<char>,
    t: Seq<char>,
)
    requires
        srv.shared == Sharing::Credentials,
        forall|k: Seq<char>| #[trigger]
            env_keys(srv).contains(k) ==> a.dom().contains(k) == b.dom().contains(k) && (
            a.dom().contains(k) ==> a[k] == b[k]),
    ensures
        scope_of(srv, a, s) == scope_of(srv, b, t),
{
    only_referenced_overrides_matter(env_keys(srv), a, b);
}

/// Different credentials for a server do not share its backend, as long as
/// their hashes differ. One that gives credentials does not share with one
/// that gives none.
pub proof fn different_credentials_do_not_share(keys: Seq<Seq<char>>, a: Texts, b: Texts)
    requires
        credentials(keys, a).len() > 0,
        credentials(keys, b).len() > 0 ==> crate::util::text_hash(
            crate::text::joined(credentials(keys, a), "\0"@),
        ) != crate::util::text_hash(crate::text::joined(credentials(keys, b), "\0"@)),
    ensures
        credential_scope(keys, a) != credential_scope(keys, b),
{
    reveal_strlit("env:");
    reveal_strlit("__default__");
    let x = credential_scope(keys, a);
    let y = credential_scope(keys, b);
    assert(x[0] == 'e');
    if credentials(keys, b).len() > 0 && x == y {
        let m = crate::util::text_hash(crate::text::joined(credentials(keys, a), "\0"@)) as int;
        let n = crate::util::text_hash(crate::text::joined(credentials(keys, b), "\0"@)) as int;
        assert(x.subrange(4, x.len() as int) =~= crate::text::hex(m));
        assert(y.subrange(4, y.len() as int) =~= crate::text::hex(n));
        crate::text::lemma_hex_value(m, 0);
        crate::text::lemma_hex_value(n, 0);
    }
}

/// A global server has one scope, whoever asks.
pub proof fn global_scope_is_one(srv: ServerView, a: Texts, b: Texts, s: Seq<char>, t: Seq<char>)
    requires
        srv.shared == Sharing::Global,
    ensures
        scope_of(srv, a, s) == scope_of(srv, b, t),
{
}

/// The scope of a session is neither the default scope nor one of credentials.
pub proof fn session_scope_is_no_other(keys: Seq<Seq<char>>, overrides: Texts, session: Seq<char>)
    ensures
        "session:"@ + session != "__default__"@,
        "session:"@ + session != credential_scope(keys, overrides),
{
    reveal_strlit("session:");
    reveal_strlit("__default__");
    reveal_strlit("env:");
    let a = "session:"@ + session;
    assert(a[0] == 's');
    assert("__default__"@[0] == '_');
    let c = credential_scope(keys, overrides);
    if credentials(keys, overrides).len() > 0 {
        assert(c[0] == 'e');
    }
}

/// The parts that tell credentials apart are `KEY=value` of each key that is
/// overridden, and no others.
pub proof fn a_part_for_each_overridden_key(
    keys: Seq<Seq<char>>,
    overrides: Texts,
    part: Seq<char>,
)
    ensures
        credentials(keys, overrides).contains(part) == exists|i: int|
            0 <= i < keys.len() && overrides.dom().contains(#[trigger] keys[i]) && part == keys[i]
                + "="@ + overrides[keys[i]],
    decreases keys.len(),
{
    if keys.len() > 0 {
        let t = keys.drop_last();
        a_part_for_each_overridden_key(t, overrides, part);
        let key = keys.last();
        assert(keys[keys.len() - 1] == key);
        crate::picked::lemma_push_contains(
            credentials(t, overrides),
            key + "="@ + overrides[key],
            part,
        );
        if credentials(t, overrides).contains(part) {
            let i = choose|i: int|
                0 <= i < t.len() && overrides.dom().contains(#[trigger] t[i]) && part == t[i]
                    + "="@ + overrides[t[i]];
            assert(keys[i] == t[i]);
        }
        if exists|i: int|
            0 <= i < keys.len() && overrides.dom().contains(#[trigger] keys[i]) && part == keys[i]
                + "="@ + overrides[keys[i]] {
            let i = choose|i: int|
                0 <= i < keys.len() && overrides.dom().contains(#[trigger] keys[i]) && part
                    == keys[i] + "="@ + overrides[keys[i]];
            if i < t.len() {
                assert(t[i] == keys[i]);
            }
        }
    }
}

/// Each key counts by itself: the parts of two lists of keys are those of the
/// first, then those of the second.
pub proof fn each_key_counts_by_itself(a: Seq<Seq<char>>, b: Seq<Seq<char>>, overrides: Texts)
    ensures
        credentials(a + b, overrides) == credentials(a, overrides) + credentials(b, overrides),
    decreases b.len(),
{
    if b.len() == 0 {
        assert(a + b =~= a);
        assert(credentials(a, overrides) + credentials(b, overrides) =~= credentials(
            a,
            overrides,
        ));
    } else {
        assert((a + b).drop_last() =~= a + b.drop_last());
        each_key_counts_by_itself(a, b.drop_last(), overrides);
        assert(credentials(a + b, overrides) =~= credentials(a, overrides) + credentials(
            b,
            overrides,
        ));
    }
}

/// There are as many parts as there are keys that are overridden.
pub proof fn one_part_for_each_overridden_key(keys: Seq<Seq<char>>, overrides: Texts)
    ensures
        credentials(keys, overrides).len() == keys.filter(
            |key: Seq<char>| overrides.dom().contains(key),
        ).len(),
    decreases keys.len(),
{
    reveal(Seq::filter);
    if keys.len() > 0 {
        one_part_for_each_overridden_key(keys.drop_last(), overrides);
    }
}

proof fn lemma_parts_free_of(keys: Seq<Seq<char>>, overrides: Texts, c: char)
    requires
        c != '=',
        forall|key: Seq<char>| #[trigger] keys.contains(key) ==> !key.contains(c),
        forall|key: Seq<char>| #[trigger]
            keys.contains(key) && overrides.dom().contains(key) ==> !overrides[key].contains(c),
    ensures
        forall|i: int|
            0 <= i < credentials(keys, overrides).len() ==> !(#[trigger] credentials(
                keys,
                overrides,
            )[i]).contains(c),
{
    reveal_strlit("=");
    let parts = credentials(keys, overrides);
    assert forall|i: int| 0 <= i < parts.len() implies !(#[trigger] parts[i]).contains(c) by {
        assert(parts.contains(parts[i]));
        a_part_for_each_overridden_key(keys, overrides, parts[i]);
        let j = choose|j: int|
            0 <= j < keys.len() && overrides.dom().contains(#[trigger] keys[j]) && parts[i]
                == keys[j] + "="@ + overrides[keys[j]];
        assert(keys.contains(keys[j]));
        if parts[i].contains(c) {
            let p = choose|p: int| 0 <= p < parts[i].len() && parts[i][p] == c;
            if p < keys[j].len() {
                assert(keys[j][p] == c);
            } else if p > keys[j].len() {
                assert(overrides[keys[j]][p - keys[j].len() - 1] == c);
            }
        }
    }
}

proof fn lemma_part_tells_key(k: Seq<char>, v: Seq<char>, l: Seq<char>, w: Seq<char>)
    requires
        !k.contains('='),
        !l.contains('='),
        k + "="@ + v == l + "="@ + w,
    ensures
        k == l,
        v == w,
{
    reveal_strlit("=");
    let x = k + "="@ + v;
    let m = k.len() as int;
    let n = l.len() as int;
    assert(x[m] == '=' && x[n] == '=');
    if m < n {
        assert(l[m] == x[m]);
    }
    if n < m {
        assert(k[n] == x[n]);
    }
    assert(x.subrange(0, m) =~= k && x.subrange(0, n) =~= l);
    assert(x.subrange(m + 1, x.len() as int) =~= v);
    assert(x.subrange(n + 1, x.len() as int) =~= w);
}

proof fn lemma_lacking_part(keys: Seq<Seq<char>>, a: Texts, b: Texts, key: Seq<char>)
    requires
        keys.contains(key),
        forall|k: Seq<char>| #[trigger] keys.contains(k) ==> !k.contains('='),
        a.dom().contains(key),
        !b.dom().contains(key) || a[key] != b[key],
    ensures
        credentials(keys, a).contains(key + "="@ + a[key]),
        !credentials(keys, b).contains(key + "="@ + a[key]),
{
    let part = key + "="@ + a[key];
    a_part_for_each_overridden_key(keys, a, part);
    a_part_for_each_overridden_key(keys, b, part);
    let p = choose|p: int| 0 <= p < keys.len() && keys[p] == key;
    assert(a.dom().contains(keys[p]));
    if credentials(keys, b).contains(part) {
        let j = choose|j: int|
            0 <= j < keys.len() && b.dom().contains(#[trigger] keys[j]) && part == keys[j] + "="@
                + b[keys[j]];
        assert(keys.contains(keys[j]));
        lemma_part_tells_key(key, a[key], keys[j], b[keys[j]]);
    }
}

/// Overrides that differ on a variable that the server refers to give
/// different texts to hash. A text that holds a NUL, or a name that holds a
/// `=`, could pass for another one.
pub proof fn different_overrides_are_hashed_from_different_texts(
    srv: ServerView,
    keys: Seq<Seq<char>>,
    a: Texts,
    b: Texts,
    key: Seq<char>,
)
    requires
        lists_keys(keys, srv),
        refers_to(srv, key),
        a.dom().contains(key) != b.dom().contains(key) || (a.dom().contains(key) && a[key]
            != b[key]),
        forall|k: Seq<char>| #[trigger]
            keys.contains(k) ==> !k.contains('=') && !k.contains('\0') && (a.dom().contains(k)
                ==> !a[k].contains('\0')) && (b.dom().contains(k) ==> !b[k].contains('\0')),
    ensures
        crate::text::joined(credentials(env_keys(srv), a), "\0"@) != crate::text::joined(
            credentials(env_keys(srv), b),
            "\0"@,
        ),
        credentials(env_keys(srv), a) != credentials(env_keys(srv), b),
{
    reveal_strlit("\0");
    reveal_strlit("=");
    lemma_keys_unique(keys, srv);
    assert("\0"@ =~= seq!['\0']);
    let x = credentials(keys, a);
    let y = credentials(keys, b);
    lemma_parts_free_of(keys, a, '\0');
    lemma_parts_free_of(keys, b, '\0');
    if a.dom().contains(key) {
        lemma_lacking_part(keys, a, b, key);
    } else {
        lemma_lacking_part(keys, b, a, key);
    }
    lemma_joined_not_empty(keys, a);
    lemma_joined_not_empty(keys, b);
    if crate::text::joined(x, "\0"@) == crate::text::joined(y, "\0"@) {
        if x.len() > 0 && y.len() > 0 {
            crate::text::lemma_joined_injective(x, y, '\0');
        }
    }
}

proof fn lemma_joined_not_empty(keys: Seq<Seq<char>>, overrides: Texts)
    ensures
        credentials(keys, overrides).len() > 0 ==> crate::text::joined(
            credentials(keys, overrides),
            "\0"@,
        ).len() > 0,
{
    reveal_strlit("\0");
    reveal_strlit("=");
    let parts = credentials(keys, overrides);
    if parts.len() > 0 {
        assert(parts.contains(parts[0]));
        a_part_for_each_overridden_key(keys, overrides, parts[0]);
        assert(parts[0].len() > 0);
    }
}

/// Overrides that differ on a variable that the server refers to do not share
/// a backend of it, as long as the hashes of their texts differ.
pub proof fn different_overrides_have_scopes_of_their_own(
    srv: ServerView,
    keys: Seq<Seq<char>>,
    a: Texts,
    b: Texts,
    key: Seq<char>,
    s: Seq<char>,
    t: Seq<char>,
)
    requires
        srv.shared == Sharing::Credentials,
        lists_keys(keys, srv),
        refers_to(srv, key),
        a.dom().contains(key) != b.dom().contains(key) || (a.dom().contains(key) && a[key]
            != b[key]),
        crate::util::text_hash(crate::text::joined(credentials(keys, a), "\0"@))
            != crate::util::text_hash(crate::text::joined(credentials(keys, b), "\0"@)),
    ensures
        scope_of(srv, a, s) != scope_of(srv, b, t),
{
    lemma_keys_unique(keys, srv);
    if credentials(keys, a).len() > 0 {
        different_credentials_do_not_share(keys, a, b);
    } else if credentials(keys, b).len() > 0 {
        different_credentials_do_not_share(keys, b, a);
    }
}

/// Whoever overrides nothing that the server refers to has the default scope,
/// and nobody else has it.
pub proof fn default_scope_means_no_overrides(keys: Seq<Seq<char>>, overrides: Texts)
    ensures
        (credential_scope(keys, overrides) == "__default__"@) == forall|i: int|
            0 <= i < keys.len() ==> !overrides.dom().contains(#[trigger] keys[i]),
{
    reveal_strlit("env:");
    reveal_strlit("__default__");
    let parts = credentials(keys, overrides);
    if parts.len() > 0 {
        assert(credential_scope(keys, overrides)[0] == 'e');
        assert(parts.contains(parts[0]));
        a_part_for_each_overridden_key(keys, overrides, parts[0]);
    } else {
        assert forall|i: int| 0 <= i < keys.len() implies !overrides.dom().contains(
            #[trigger] keys[i],
        ) by {
            let part = keys[i] + "="@ + overrides[keys[i]];
            a_part_for_each_overridden_key(keys, overrides, part);
        }
    }
}

/// The keys that are missing are those that neither the client nor the process
/// environment provides.
pub proof fn missing_means_provided_by_nobody(
    keys: Seq<Seq<char>>,
    overrides: Texts,
    process_env: Texts,
    key: Seq<char>,
)
    ensures
        missing_keys(keys, overrides, process_env).contains(key) == (keys.contains(key)
            && !overrides.dom().contains(key) && !process_env.dom().contains(key)),
    decreases keys.len(),
{
    if keys.len() > 0 {
        let t = keys.drop_last();
        missing_means_provided_by_nobody(t, overrides, process_env, key);
        crate::picked::lemma_push_contains(
            missing_keys(t, overrides, process_env),
            keys.last(),
            key,
        );
        crate::picked::lemma_push_contains(t, keys.last(), key);
        assert(keys =~= t.push(keys.last()));
    }
}

proof fn lemma_names_shift(s: Seq<char>, t: Seq<char>, k: int, from: int)
    requires
        0 <= k <= s.len(),
        0 <= from <= t.len(),
        s.subrange(k, s.len() as int) == t,
    ensures
        crate::expand::var_names_from(t, from) == crate::expand::var_names_from(s, k + from),
    decreases t.len() - from,
{
    reveal_strlit("${");
    reveal_strlit("}");
    assert(t.len() == s.len() - k);
    crate::text::lemma_find_shift(s, t, "${"@, k, from);
    crate::text::lemma_find_from(t, "${"@, from);
    if crate::text::find_from(t, "${"@, from) is Some {
        let a = crate::text::find_from(t, "${"@, from)->0;
        crate::text::lemma_find_shift(s, t, "}"@, k, a + 2);
        crate::text::lemma_find_from(t, "}"@, a + 2);
        if crate::text::find_from(t, "}"@, a + 2) is Some {
            let b = crate::text::find_from(t, "}"@, a + 2)->0;
            assert(t.subrange(a + 2, b) =~= s.subrange(k + a + 2, k + b));
            lemma_names_shift(s, t, k, b + 1);
        }
    }
}

/// The first variable that a text refers to is that of its first `${..}`; the
/// others are those of the rest.
pub proof fn each_reference_is_listed(head: Seq<char>, key: Seq<char>, tail: Seq<char>)
    requires
        !crate::text::contains_pat(head, "${"@),
        !key.contains('}'),
    ensures
        crate::expand::var_names(head + "${"@ + key + "}"@ + tail) == seq![key]
            + crate::expand::var_names(tail),
{
    reveal_strlit("${");
    reveal_strlit("}");
    let s = head + "${"@ + key + "}"@ + tail;
    crate::config::lemma_reference(head, key, tail, tail);
    let k = (head.len() + 2 + key.len() + 1) as int;
    assert(s.subrange(k, s.len() as int) =~= tail);
    lemma_names_shift(s, tail, k, 0);
}

/// A text without `${` refers to no variable.
pub proof fn no_reference_no_names(s: Seq<char>)
    requires
        !crate::text::contains_pat(s, "${"@),
    ensures
        crate::expand::var_names(s).len() == 0,
{
    crate::text::lemma_not_found(s, "${"@, 0);
}

/// A server refers to the variable of a `${..}` in a value of its environment.
pub proof fn server_refers_by_its_environment(
    srv: ServerView,
    name: Seq<char>,
    head: Seq<char>,
    key: Seq<char>,
    tail: Seq<char>,
)
    requires
        srv.env.dom().contains(name),
        srv.env[name] == head + "${"@ + key + "}"@ + tail,
        !crate::text::contains_pat(head, "${"@),
        !key.contains('}'),
    ensures
        refers_to(srv, key),
        forall|k: Seq<char>|
            crate::expand::var_names(tail).contains(k) ==> #[trigger] refers_to(srv, k),
{
    each_reference_is_listed(head, key, tail);
    let names = crate::expand::var_names(srv.env[name]);
    assert(names[0] == key);
    assert(names.contains(key));
    assert(env_refers(srv.env, key));
    assert forall|k: Seq<char>|
        crate::expand::var_names(tail).contains(k) implies #[trigger] refers_to(srv, k) by {
        crate::picked::lemma_add_contains(seq![key], crate::expand::var_names(tail), k);
        assert(names.contains(k));
        assert(env_refers(srv.env, k));
    }
}

/// A server refers to the variable of a `${..}` in one of its arguments.
pub proof fn server_refers_by_its_arguments(
    srv: ServerView,
    i: int,
    head: Seq<char>,
    key: Seq<char>,
    tail: Seq<char>,
)
    requires
        0 <= i < srv.args.len(),
        srv.args[i] == head + "${"@ + key + "}"@ + tail,
        !crate::text::contains_pat(head, "${"@),
        !key.contains('}'),
    ensures
        refers_to(srv, key),
        forall|k: Seq<char>|
            crate::expand::var_names(tail).contains(k) ==> #[trigger] refers_to(srv, k),
{
    each_reference_is_listed(head, key, tail);
    let names = crate::expand::var_names(srv.args[i]);
    assert(names[0] == key);
    assert(names.contains(key));
    assert(args_refer(srv.args, key));
    assert forall|k: Seq<char>|
        crate::expand::var_names(tail).contains(k) implies #[trigger] refers_to(srv, k) by {
        crate::picked::lemma_add_contains(seq![key], crate::expand::var_names(tail), k);
        assert(names.contains(k));
        assert(args_refer(srv.args, k));
    }
}

/// A server whose environment and arguments hold no `${` refers to nothing.
pub proof fn server_without_references_refers_to_nothing(srv: ServerView, key: Seq<char>)
    requires
        forall|name: Seq<char>| #[trigger]
            srv.env.dom().contains(name) ==> !crate::text::contains_pat(srv.env[name], "${"@),
        forall|i: int|
            0 <= i < srv.args.len() ==> !crate::text::contains_pat(#[trigger] srv.args[i], "${"@),
    ensures
        !refers_to(srv, key),
{
    if env_refers(srv.env, key) {
        let name = choose|name: Seq<char>| #[trigger]
            srv.env.dom().contains(name) && crate::expand::var_names(srv.env[name]).contains(key);
        no_reference_no_names(srv.env[name]);
    }
    if args_refer(srv.args, key) {
        let i = choose|i: int|
            0 <= i < srv.args.len() && crate::expand::var_names(#[trigger] srv.args[i]).contains(
                key,
            );
        no_reference_no_names(srv.args[i]);
    }
}

} // verus!
