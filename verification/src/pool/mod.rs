//! The pool of backends: which processes run, for whom, and for how long.
//!
//! The pool keeps what is known of each process and decides what happens to
//! it. Whoever runs the processes asks the pool, starts and kills as it says,
//! and tells it what came of it.
//!
//! - [`env_key`]: the scope part of a key.
//! - [`entry`]: keys and entries.
//! - [`reap`]: which idle backends go.
//! - [`reload`]: what a new config changes.
use vstd::prelude::*;

use crate::backend::{Backend, Tool, ToolView, copy_tools_to, runs_in_docker, tools_view};
use crate::config::{Config, ServerConfig, ServerView, Sharing, is_server_disabled};
use crate::expand::Texts;
use crate::json::{Json, JsonView, js, no_members, put, text};
use crate::jsonrpc::{RpcError, RpcErrorView};
use crate::names::{Duplicate, NameMap};
use crate::picked::picked;
use crate::text::{begins_with, cat, contains_text, join, same_text, without_prefix};

use self::entry::{BackendEntry, BackendKey, Slot, find_slot};
use self::env_key::{
    DEFAULT_ENV_KEY, ENV_KEY_PREFIX, SESSION_KEY_PREFIX, backend_env_key, missing_env_keys,
    sharing_env_key,
};

pub mod entry;
pub mod env_key;
pub mod reap;
pub mod reload;

pub use self::env_key::relevant_env_keys;

verus! {

/// The idle timeout of a server that states none: fifteen minutes.
pub const DEFAULT_IDLE_TIMEOUT_SECS: u64 = 900;

/// What is reported while backends start.
#[derive(Debug)]
pub enum BackendProgress {
    /// The backend of `server` has started and has so many tools.
    Ready { server: String, tools: usize },
    /// The backend of `server` could not be started.
    Failed { server: String, error: String },
}

/// What a list of keys stands for.
pub open spec fn keys_view(s: Seq<BackendKey>) -> Seq<(Seq<char>, Seq<char>)> {
    Seq::new(s.len(), |i: int| s[i]@)
}

/// No overrides.
pub open spec fn no_texts() -> Texts {
    Map::empty()
}

/// The pool.
pub struct BackendPool {
    /// The config that the pool runs.
    pub config: Config,
    /// The backends.
    pub slots: Vec<Slot>,
}

// ---------------------------------------------------------------------------
// Boot
// ---------------------------------------------------------------------------

/// The server is not started at boot: its backends belong to sessions, or it
/// needs credentials that the process environment does not have.
pub open spec fn deferred(srv: ServerView, process_env: Texts) -> bool {
    ||| srv.shared == Sharing::Session
    ||| srv.shared == Sharing::Credentials && env_key::missing_keys(
        env_key::env_keys(srv),
        no_texts(),
        process_env,
    ).len() > 0
}

/// The backends to start at boot.
pub open spec fn boot_starts(servers: Seq<(Seq<char>, ServerView)>, process_env: Texts) -> Seq<
    (Seq<char>, Seq<char>),
>
    decreases servers.len(),
{
    if servers.len() == 0 {
        Seq::empty()
    } else {
        let before = boot_starts(servers.drop_last(), process_env);
        let (name, srv) = servers.last();
        if crate::config::disabled(name, srv, process_env) || deferred(srv, process_env) {
            before
        } else {
            before.push((name, env_key::credential_scope(env_key::env_keys(srv), no_texts())))
        }
    }
}

/// The servers whose Docker image is built at boot although they are not
/// started.
pub open spec fn boot_images(servers: Seq<(Seq<char>, ServerView)>, process_env: Texts) -> Seq<
    Seq<char>,
>
    decreases servers.len(),
{
    if servers.len() == 0 {
        Seq::empty()
    } else {
        let before = boot_images(servers.drop_last(), process_env);
        let (name, srv) = servers.last();
        if !crate::config::disabled(name, srv, process_env) && deferred(srv, process_env)
            && crate::backend::uses_docker(srv) {
            before.push(name)
        } else {
            before
        }
    }
}

fn is_deferred(srv: &ServerConfig, process_env: &NameMap<String>) -> (r: bool)
    ensures
        r == deferred(srv@, process_env@),
{
    match srv.shared {
        Sharing::Session => true,
        Sharing::Credentials => {
            let nothing: NameMap<String> = NameMap::new();
            let missing = missing_env_keys(srv, &nothing, process_env);
            assert(crate::text::texts(missing@).len() == missing@.len());
            missing.len() > 0
        },
        Sharing::Global => false,
    }
}

/// What to do at boot: the backends to start, and the servers whose Docker
/// image to build.
pub fn boot_plan(config: &Config, process_env: &NameMap<String>) -> (r: (
    Vec<BackendKey>,
    Vec<String>,
))
    ensures
        keys_view(r.0@) == boot_starts(config.servers.pairs(), process_env@),
        crate::text::texts(r.1@) == boot_images(config.servers.pairs(), process_env@),
{
    let ghost pairs = config.servers.pairs();
    let nothing: NameMap<String> = NameMap::new();
    let mut start: Vec<BackendKey> = Vec::new();
    let mut images: Vec<String> = Vec::new();
    let n: usize = config.servers.len();
    let mut i: usize = 0;
    assert(keys_view(start@) =~= boot_starts(pairs.take(0), process_env@));
    assert(crate::text::texts(images@) =~= boot_images(pairs.take(0), process_env@));
    while i < n
        invariant
            pairs == config.servers.pairs(),
            n == pairs.len(),
            i <= n,
            nothing@ == no_texts(),
            keys_view(start@) == boot_starts(pairs.take(i as int), process_env@),
            crate::text::texts(images@) == boot_images(pairs.take(i as int), process_env@),
        decreases n - i,
    {
        assert(pairs.take(i + 1).drop_last() =~= pairs.take(i as int));
        let name = config.servers.name_at(i);
        let srv = config.servers.value_at(i);
        if !is_server_disabled(name.as_str(), srv, process_env) {
            if is_deferred(srv, process_env) {
                if runs_in_docker(srv) {
                    let ghost before = images@;
                    images.push(name.clone());
                    assert(crate::text::texts(images@) =~= crate::text::texts(before).push(
                        name@,
                    ));
                }
            } else {
                let ghost before = start@;
                let scope = backend_env_key(srv, &nothing);
                let key = BackendKey::new(name.as_str(), scope.as_str());
                let ghost added = key@;
                start.push(key);
                assert(keys_view(start@) =~= keys_view(before).push(added));
            }
        }
        i = i + 1;
    }
    assert(pairs.take(n as int) =~= pairs);
    (start, images)
}

// ---------------------------------------------------------------------------
// Getting a backend
// ---------------------------------------------------------------------------

/// What to do to have a backend.
pub enum Ensured {
    /// It is in the pool.
    Present(BackendKey),
    /// It has to be started.
    Spawn(BackendKey),
}

/// The message for an unknown server.
pub open spec fn unknown_server(name: Seq<char>) -> Seq<char> {
    "unknown server: "@ + name
}

/// The message for a server whose variables nobody provides.
pub open spec fn missing_env_message(name: Seq<char>, missing: Seq<Seq<char>>) -> Seq<char> {
    "server '"@ + name + "' requires env vars not provided: "@ + crate::text::joined(
        missing,
        ", "@,
    )
}

// ---------------------------------------------------------------------------
// Tools
// ---------------------------------------------------------------------------

/// The client asks for the server, and it is not disabled.
pub open spec fn asked_for(
    name: Seq<char>,
    srv: ServerView,
    servers: Seq<Seq<char>>,
    process_env: Texts,
) -> bool {
    (servers.len() == 0 || servers.contains(name)) && !crate::config::disabled(
        name,
        srv,
        process_env,
    )
}

/// Who asks, and for what.
pub struct Client {
    pub servers: Seq<Seq<char>>,
    pub overrides: Texts,
    pub session: Seq<char>,
    pub process_env: Texts,
}

/// The key of the server's backend for the client.
pub open spec fn key_for(name: Seq<char>, srv: ServerView, client: Client) -> (
    Seq<char>,
    Seq<char>,
) {
    (name, env_key::scope_of(srv, client.overrides, client.session))
}

/// The tools that the client sees of the given servers' running backends.
pub open spec fn visible_tools(
    servers: Seq<(Seq<char>, ServerView)>,
    slots: Seq<Slot>,
    client: Client,
) -> Seq<ToolView>
    decreases servers.len(),
{
    if servers.len() == 0 {
        Seq::empty()
    } else {
        let before = visible_tools(servers.drop_last(), slots, client);
        let (name, srv) = servers.last();
        let key = key_for(name, srv, client);
        if asked_for(name, srv, client.servers, client.process_env) && entry::has_key(slots, key) {
            before + tools_view(slots[entry::place_of_key(slots, key)].entry.backend.tools@)
        } else {
            before
        }
    }
}

/// The key is that of a backend that the client asks for.
pub open spec fn key_asked_for(
    servers: Seq<(Seq<char>, ServerView)>,
    key: (Seq<char>, Seq<char>),
    client: Client,
) -> bool {
    exists|i: int|
        0 <= i < servers.len() && asked_for(
            (#[trigger] servers[i]).0,
            servers[i].1,
            client.servers,
            client.process_env,
        ) && key_for(servers[i].0, servers[i].1, client) == key
}

/// The slots after each backend that the client asks for was used.
pub open spec fn slots_used(
    servers: Seq<(Seq<char>, ServerView)>,
    slots: Seq<Slot>,
    client: Client,
    now_ms: u64,
) -> Seq<Slot> {
    Seq::new(
        slots.len(),
        |i: int|
            if key_asked_for(servers, slots[i].key@, client) {
                entry::touched_slot(slots[i], now_ms)
            } else {
                slots[i]
            },
    )
}

/// The servers whose backend could not be had, each with the message why.
pub open spec fn failed(outcomes: Seq<(String, Result<BackendKey, String>)>) -> Seq<
    (Seq<char>, Seq<char>),
>
    decreases outcomes.len(),
{
    if outcomes.len() == 0 {
        Seq::empty()
    } else {
        let before = failed(outcomes.drop_last());
        match outcomes.last().1 {
            Ok(_) => before,
            Err(e) => before.push((outcomes.last().0@, e@)),
        }
    }
}

/// The servers whose backend could not be had, each with the message why, in
/// the order of the outcomes.
pub fn failures(outcomes: &Vec<(String, Result<BackendKey, String>)>) -> (r: Vec<(String, String)>)
    ensures
        crate::server::errors_view(r@) == failed(outcomes@),
{
    let ghost all = outcomes@;
    let mut out: Vec<(String, String)> = Vec::new();
    let mut i: usize = 0;
    assert(crate::server::errors_view(out@) =~= failed(all.take(0)));
    while i < outcomes.len()
        invariant
            all == outcomes@,
            i <= all.len(),
            crate::server::errors_view(out@) == failed(all.take(i as int)),
        decreases all.len() - i,
    {
        assert(all.take(i + 1).drop_last() =~= all.take(i as int));
        match &outcomes[i].1 {
            Ok(_) => {},
            Err(e) => {
                let ghost before = out@;
                out.push((outcomes[i].0.clone(), e.clone()));
                assert(crate::server::errors_view(out@) =~= crate::server::errors_view(
                    before,
                ).push((all[i as int].0@, e@)));
            },
        }
        i = i + 1;
    }
    assert(all.take(all.len() as int) =~= all);
    out
}

// ---------------------------------------------------------------------------
// Calls
// ---------------------------------------------------------------------------

/// The tool's name is the server's name, `_`, and something more.
pub open spec fn could_own(server: Seq<char>, tool: Seq<char>) -> bool {
    crate::text::begins(tool, server + "_"@) && tool.len() > server.len() + 1
}

/// The client asks for server `i`, and it could own the tool.
pub open spec fn may_own(
    servers: Seq<(Seq<char>, ServerView)>,
    i: int,
    tool: Seq<char>,
    client: Client,
) -> bool {
    0 <= i < servers.len() && asked_for(
        servers[i].0,
        servers[i].1,
        client.servers,
        client.process_env,
    ) && could_own(servers[i].0, tool)
}

/// Server `i` owns the tool: of those that could, it has the longest name.
pub open spec fn owns(
    servers: Seq<(Seq<char>, ServerView)>,
    i: int,
    tool: Seq<char>,
    client: Client,
) -> bool {
    may_own(servers, i, tool, client) && forall|j: int| #[trigger]
        may_own(servers, j, tool, client) ==> servers[j].0.len() <= servers[i].0.len()
}

/// Some server owns the tool.
pub open spec fn owned(servers: Seq<(Seq<char>, ServerView)>, tool: Seq<char>, client: Client) -> bool {
    exists|i: int| owns(servers, i, tool, client)
}

/// The server that owns the tool.
pub open spec fn owner(servers: Seq<(Seq<char>, ServerView)>, tool: Seq<char>, client: Client) -> int {
    choose|i: int| owns(servers, i, tool, client)
}

/// At most one server owns a tool.
pub proof fn lemma_one_owner(
    servers: Seq<(Seq<char>, ServerView)>,
    i: int,
    j: int,
    tool: Seq<char>,
    client: Client,
)
    requires
        crate::names::distinct_names(servers),
        owns(servers, i, tool, client),
        owns(servers, j, tool, client),
    ensures
        i == j,
{
    let a = servers[i].0;
    let b = servers[j].0;
    assert(may_own(servers, i, tool, client));
    assert(may_own(servers, j, tool, client));
    assert(a.len() == b.len());
    assert(a =~= tool.subrange(0, a.len() as int)) by {
        assert((a + "_"@).subrange(0, a.len() as int) =~= a);
        assert(tool.subrange(0, (a + "_"@).len() as int).subrange(0, a.len() as int)
            =~= tool.subrange(0, a.len() as int));
    }
    assert(b =~= tool.subrange(0, b.len() as int)) by {
        assert((b + "_"@).subrange(0, b.len() as int) =~= b);
        assert(tool.subrange(0, (b + "_"@).len() as int).subrange(0, b.len() as int)
            =~= tool.subrange(0, b.len() as int));
    }
}

/// Where a call goes.
pub struct Route {
    /// The backend.
    pub key: BackendKey,
    /// The tool's name without the server's name.
    pub stripped: String,
}

/// The route is that of the tool's owner.
pub open spec fn routes(
    servers: Seq<(Seq<char>, ServerView)>,
    tool: Seq<char>,
    client: Client,
    key: (Seq<char>, Seq<char>),
    stripped: Seq<char>,
) -> bool {
    let i = owner(servers, tool, client);
    &&& owns(servers, i, tool, client)
    &&& key == key_for(servers[i].0, servers[i].1, client)
    &&& tool == crate::backend::tool_name(servers[i].0, stripped)
}

/// The name by which a backend with these tools knows the tool: that of the
/// listed tool, which an alias stands for, else what follows the prefix.
pub open spec fn call_target(tools: Seq<ToolView>, tool: Seq<char>, stripped: Seq<char>) -> Seq<char>
    decreases tools.len(),
{
    if tools.len() == 0 {
        stripped
    } else if tools[0].name == tool {
        tools[0].original_name
    } else {
        call_target(tools.subrange(1, tools.len() as int), tool, stripped)
    }
}

fn target_of(tools: &Vec<Tool>, tool: &str, stripped: &str) -> (r: String)
    ensures
        r@ == call_target(tools_view(tools@), tool@, stripped@),
{
    let wanted: String = tool.to_owned();
    let ghost all = tools_view(tools@);
    let n: usize = tools.len();
    let mut i: usize = 0;
    assert(all.subrange(0, n as int) =~= all);
    while i < n
        invariant
            n == tools@.len(),
            all == tools_view(tools@),
            i <= n,
            wanted@ == tool@,
            call_target(all, tool@, stripped@) == call_target(
                all.subrange(i as int, n as int),
                tool@,
                stripped@,
            ),
        decreases n - i,
    {
        if tools[i].name == wanted {
            return tools[i].original_name.clone();
        }
        assert(all.subrange(i as int, n as int).subrange(1, n - i) =~= all.subrange(
            i + 1,
            n as int,
        ));
        i = i + 1;
    }
    stripped.to_owned()
}

/// How a call begins.
pub enum CallStart {
    /// No server owns the tool.
    Refused(RpcError),
    /// The backend is there: call `target`.
    Invoke { route: Route, target: String },
    /// The backend has to be started first.
    Spawn { route: Route },
}

/// A call of `tool` begins as `r` says, and turns `slots` into `after`: it is
/// refused if no server owns the tool; it goes to the owner's backend if that
/// is there, which counts as a use; else the backend has to be started.
pub open spec fn call_begins(
    r: CallStart,
    tool: Seq<char>,
    servers: Seq<(Seq<char>, ServerView)>,
    client: Client,
    slots: Seq<Slot>,
    after: Seq<Slot>,
    now_ms: u64,
) -> bool {
    match r {
        CallStart::Refused(e) => {
            &&& !owned(servers, tool, client)
            &&& e@ == RpcErrorView::ToolNotFound(tool)
            &&& after == slots
        },
        CallStart::Invoke { route, target } => {
            let p = entry::place_of_key(slots, route.key@);
            &&& routes(servers, tool, client, route.key@, route.stripped@)
            &&& entry::has_key(slots, route.key@)
            &&& target@ == call_target(
                tools_view(slots[p].entry.backend.tools@),
                tool,
                route.stripped@,
            )
            &&& after == slots.update(p, entry::touched_slot(slots[p], now_ms))
        },
        CallStart::Spawn { route } => {
            &&& routes(servers, tool, client, route.key@, route.stripped@)
            &&& !entry::has_key(slots, route.key@)
            &&& after == slots
        },
    }
}

/// What follows the first attempt.
pub enum AfterCall {
    /// The call is done.
    Done(Result<Json, RpcError>),
    /// The process is dead: the entry is taken out, if it was still there, and
    /// the call is tried once more on a new process.
    Retry(Option<Slot>),
}

/// An answer of a backend as the outcome of a call.
pub open spec fn call_outcome(answer: Result<JsonView, Seq<char>>) -> Result<
    JsonView,
    RpcErrorView,
> {
    match answer {
        Ok(v) => Ok(v),
        Err(m) => Err(RpcErrorView::Internal(m)),
    }
}

fn outcome(answer: Result<Json, String>) -> (r: Result<Json, RpcError>)
    ensures
        crate::jsonrpc::outcome_view(r) == call_outcome(crate::backend::answer_view(answer)),
{
    match answer {
        Ok(v) => Ok(v),
        Err(m) => Err(RpcError::internal(m)),
    }
}

/// The error of a call whose backend could not be started.
pub fn spawn_failed(server: &str, e: &str) -> (r: RpcError)
    ensures
        r@ == RpcErrorView::Internal("failed to spawn backend '"@ + server@ + "': "@ + e@),
{
    let mut m = cat("failed to spawn backend '", server);
    m.append("': ");
    m.append(e);
    RpcError::internal(m)
}

// ---------------------------------------------------------------------------
// Health
// ---------------------------------------------------------------------------

/// A server's backend is ensured for a client: it is there, which counts as a
/// use; or it has to be started, for which all that the server refers to must be
/// provided.
pub open spec fn backend_is_ensured(
    r: Result<Ensured, String>,
    name: Seq<char>,
    servers: Map<Seq<char>, ServerView>,
    client: Client,
    slots: Seq<Slot>,
    after: Seq<Slot>,
    now_ms: u64,
) -> bool {
    &&& !servers.dom().contains(name) ==> (r matches Err(e) && e@ == unknown_server(name) && after
        == slots)
    &&& servers.dom().contains(name) ==> {
        let srv = servers[name];
        let key = key_for(name, srv, client);
        let missing = env_key::missing_keys(
            env_key::env_keys(srv),
            client.overrides,
            client.process_env,
        );
        if entry::has_key(slots, key) {
            let p = entry::place_of_key(slots, key);
            &&& (r matches Ok(Ensured::Present(k)) && k@ == key)
            &&& after == slots.update(p, entry::touched_slot(slots[p], now_ms))
        } else {
            &&& after == slots
            &&& if missing.len() > 0 {
                r matches Err(e) && e@ == missing_env_message(name, missing)
            } else {
                r matches Ok(Ensured::Spawn(k)) && k@ == key
            }
        }
    }
}

/// A call ends: with its outcome, or, if it failed because the process is dead,
/// with a retry on a new one.
pub open spec fn call_ends(
    r: AfterCall,
    key: (Seq<char>, Seq<char>),
    crashed: bool,
    answer: Result<JsonView, Seq<char>>,
    slots: Seq<Slot>,
    after: Seq<Slot>,
) -> bool {
    let p = entry::place_of_key(slots, key);
    if answer is Ok || !crashed {
        &&& (r matches AfterCall::Done(o) && crate::jsonrpc::outcome_view(o) == call_outcome(
            answer,
        ))
        &&& after == (if entry::has_key(slots, key) {
            slots.update(p, entry::synced_slot(slots[p]))
        } else {
            slots
        })
    } else {
        &&& after == picked(slots, other_than(key))
        &&& match r {
            AfterCall::Done(_) => false,
            AfterCall::Retry(o) => {
                &&& o is Some == entry::has_key(slots, key)
                &&& o matches Some(s) ==> s == slots[p]
            },
        }
    }
}

/// A call goes to the backend of `key`, which counts as a use, if it is there.
pub open spec fn called_again(
    r: Result<String, RpcError>,
    key: (Seq<char>, Seq<char>),
    stripped: Seq<char>,
    tool: Seq<char>,
    slots: Seq<Slot>,
    after: Seq<Slot>,
    now_ms: u64,
) -> bool {
    let p = entry::place_of_key(slots, key);
    if entry::has_key(slots, key) {
        &&& (r matches Ok(target) && target@ == call_target(
            tools_view(slots[p].entry.backend.tools@),
            tool,
            stripped,
        ))
        &&& after == slots.update(p, entry::touched_slot(slots[p], now_ms))
    } else {
        &&& (r matches Err(e) && e@ == RpcErrorView::ToolNotFound(tool))
        &&& after == slots
    }
}

/// The sharing mode that a scope shows.
pub open spec fn scope_label(scope: Seq<char>) -> Seq<char> {
    if scope == "__default__"@ {
        "global"@
    } else if crate::text::begins(scope, "env:"@) {
        "credentials"@
    } else {
        "session"@
    }
}

/// The health of one backend.
pub open spec fn health_item(s: Slot, now_ms: u64) -> JsonView {
    JsonView::Object(
        no_members().insert("name"@, js(s.key.server@)).insert(
            "scope"@,
            js(scope_label(s.key.scope@)),
        ).insert("ready"@, JsonView::Bool(s.entry.ready)).insert(
            "crashed"@,
            JsonView::Bool(s.entry.backend.crashed),
        ).insert("tools"@, JsonView::Int(s.entry.tool_count as int)).insert(
            "restarts"@,
            JsonView::Int(s.entry.restart_count as int),
        ).insert(
            "idle_secs"@,
            match entry::idle_of(s.entry, now_ms) {
                Some(n) => JsonView::Int(n),
                None => JsonView::Null,
            },
        ),
    )
}

/// The slot belongs to a session.
pub open spec fn of_session(s: Slot) -> bool {
    s.key.scope@ != "__default__"@ && !crate::text::begins(s.key.scope@, "env:"@)
        && crate::text::begins(s.key.scope@, "session:"@)
}

/// The health of the pool: each backend, and how many belong to sessions.
pub open spec fn health_json(slots: Seq<Slot>, now_ms: u64) -> JsonView {
    JsonView::Object(
        no_members().insert(
            "backends"@,
            JsonView::Array(Seq::new(slots.len(), |i: int| health_item(slots[i], now_ms))),
        ).insert(
            "session_count"@,
            JsonView::Int(picked(slots, |s: Slot| of_session(s)).len() as int),
        ),
    )
}

fn health_of(s: &Slot, now_ms: u64) -> (r: Json)
    ensures
        r@ == health_item(*s, now_ms),
{
    let label: &str = if same_text(s.key.scope.as_str(), DEFAULT_ENV_KEY) {
        "global"
    } else if begins_with(s.key.scope.as_str(), ENV_KEY_PREFIX) {
        "credentials"
    } else {
        "session"
    };
    let idle: Json = match s.entry.idle_secs(now_ms) {
        Some(n) => Json::UInt(n),
        None => Json::Null,
    };
    let mut m: Vec<(String, Json)> = Vec::new();
    put(&mut m, "name", text(s.key.server.as_str()));
    put(&mut m, "scope", text(label));
    put(&mut m, "ready", Json::Bool(s.entry.ready));
    put(&mut m, "crashed", Json::Bool(s.entry.backend.has_crashed()));
    put(&mut m, "tools", Json::UInt(s.entry.tool_count));
    put(&mut m, "restarts", Json::UInt(s.entry.restart_count));
    put(&mut m, "idle_secs", idle);
    Json::Object(m)
}

// ---------------------------------------------------------------------------
// The pool
// ---------------------------------------------------------------------------

impl BackendPool {
    /// No key has two entries.
    pub open spec fn wf(&self) -> bool {
        entry::distinct_slots(self.slots@)
    }

    /// A pool without backends.
    pub fn new(config: &Config) -> (r: Self)
        ensures
            r.wf(),
            r.slots@.len() == 0,
            r.config@ == config@,
            r.config.servers.pairs() == config.servers.pairs(),
            r.config.custom_tools.pairs() == config.custom_tools.pairs(),
    {
        BackendPool { config: config.duplicate(), slots: Vec::new() }
    }

    /// Puts a started backend into the pool, in place of one with the same key.
    pub fn insert_backend(
        &mut self,
        key: BackendKey,
        backend: Backend,
        srv: &ServerConfig,
        now_ms: u64,
    ) -> (r: Option<Slot>)
        requires
            old(self).wf(),
        ensures
            final(self).wf(),
            final(self).config == old(self).config,
            final(self).slots@ == entry::with_slot(
                old(self).slots@,
                (Slot { key, entry: entry::new_entry(backend, srv.shared, now_ms) }),
            ),
            r is Some == entry::has_key(old(self).slots@, key@),
            r matches Some(s) ==> s == old(self).slots@[entry::place_of_key(
                old(self).slots@,
                key@,
            )],
    {
        let at = find_slot(&self.slots, &key);
        let slot = Slot { key, entry: BackendEntry::new(backend, srv, now_ms) };
        proof {
            entry::lemma_with_slot(self.slots@, slot);
        }
        match at {
            Some(i) => {
                let mut other = slot;
                std::mem::swap(&mut self.slots[i], &mut other);
                Some(other)
            },
            None => {
                self.slots.push(slot);
                None
            },
        }
    }

    /// Takes the backend with the given key out of the pool.
    pub fn remove(&mut self, key: &BackendKey) -> (r: Option<Slot>)
        requires
            old(self).wf(),
        ensures
            final(self).wf(),
            final(self).config == old(self).config,
            final(self).slots@ == picked(old(self).slots@, other_than(key@)),
            r is Some == entry::has_key(old(self).slots@, key@),
            r matches Some(s) ==> s == old(self).slots@[entry::place_of_key(
                old(self).slots@,
                key@,
            )],
    {
        let ghost all = self.slots@;
        proof {
            entry::lemma_picked_slots(all, other_than(key@));
        }
        match find_slot(&self.slots, key) {
            Some(i) => {
                let s = self.slots.remove(i);
                proof {
                    lemma_remove_is_pick(all, key@, i as int);
                }
                Some(s)
            },
            None => {
                proof {
                    assert forall|i: int| 0 <= i < all.len() implies (#[trigger] all[i]).key@
                        != key@ by {
                        if all[i].key@ == key@ {
                            assert(entry::keyed_at(all, key@, i));
                        }
                    }
                    crate::picked::lemma_picked_all(all, other_than(key@));
                }
                None
            },
        }
    }

    /// Gets the backend of a server for a client, or says that it has to be
    /// started, or why it cannot be.
    pub fn ensure_backend(
        &mut self,
        name: &str,
        env_overrides: &NameMap<String>,
        session_id: &str,
        process_env: &NameMap<String>,
        now_ms: u64,
    ) -> (r: Result<Ensured, String>)
        requires
            old(self).wf(),
        ensures
            final(self).wf(),
            final(self).config == old(self).config,
            backend_is_ensured(
                r,
                name@,
                old(self).config@.servers,
                Client {
                    servers: Seq::empty(),
                    overrides: env_overrides@,
                    session: session_id@,
                    process_env: process_env@,
                },
                old(self).slots@,
                final(self).slots@,
                now_ms,
            ),
    {
        let srv: &ServerConfig = match self.config.servers.get(name) {
            Some(srv) => srv,
            None => {
                return Err(cat("unknown server: ", name));
            },
        };
        let scope = sharing_env_key(srv, env_overrides, session_id);
        let key = BackendKey::new(name, scope.as_str());
        match find_slot(&self.slots, &key) {
            Some(i) => {
                touch_at(&mut self.slots, i, now_ms);
                return Ok(Ensured::Present(key));
            },
            None => {},
        }
        let missing = missing_env_keys(srv, env_overrides, process_env);
        assert(crate::text::texts(missing@).len() == missing@.len());
        if missing.len() > 0 {
            let mut m = cat("server '", name);
            m.append("' requires env vars not provided: ");
            let list = join(&missing, ", ");
            m.append(list.as_str());
            return Err(m);
        }
        Ok(Ensured::Spawn(key))
    }

    /// The servers that a client's list stands for: those it names, or all
    /// active ones if it names none.
    pub fn requested_servers(&self, servers: &Vec<String>, process_env: &NameMap<String>) -> (r:
        Vec<String>)
        ensures
            crate::text::texts(r@) == (if servers@.len() == 0 {
                crate::config::active_names(self.config.servers.pairs(), process_env@)
            } else {
                crate::text::texts(servers@)
            }),
    {
        if servers.len() == 0 {
            self.config.active_server_names(process_env)
        } else {
            crate::text::copy_texts(servers)
        }
    }

    /// What to report of a server once its backend is there or has failed.
    pub fn progress(&self, server: &str, ensured: &Result<BackendKey, String>) -> (r:
        BackendProgress)
        requires
            self.wf(),
        ensures
            ensured matches Err(e) ==> (r matches BackendProgress::Failed { server: s, error }
                && s@ == server@ && error@ == e@),
            ensured matches Ok(key) ==> (r matches BackendProgress::Ready { server: s, tools }
                && s@ == server@ && tools == (if entry::has_key(self.slots@, key@) {
                self.slots@[entry::place_of_key(
                    self.slots@,
                    key@,
                )].entry.tool_count as usize
            } else {
                0
            })),
    {
        match ensured {
            Ok(key) => {
                let tools: usize = match find_slot(&self.slots, key) {
                    Some(i) => self.slots[i].entry.tool_count as usize,
                    None => 0,
                };
                BackendProgress::Ready { server: server.to_owned(), tools }
            },
            Err(e) => BackendProgress::Failed { server: server.to_owned(), error: e.clone() },
        }
    }

    /// The tools that a client sees, and a use of each backend that has them.
    pub fn collect_tools(
        &mut self,
        servers: &Vec<String>,
        env_overrides: &NameMap<String>,
        session_id: &str,
        process_env: &NameMap<String>,
        now_ms: u64,
    ) -> (r: Vec<Tool>)
        requires
            old(self).wf(),
        ensures
            final(self).wf(),
            final(self).config == old(self).config,
            tools_view(r@) == visible_tools(
                old(self).config.servers.pairs(),
                old(self).slots@,
                client_of(servers@, env_overrides@, session_id@, process_env@),
            ),
            final(self).slots@ == slots_used(
                old(self).config.servers.pairs(),
                old(self).slots@,
                client_of(servers@, env_overrides@, session_id@, process_env@),
                now_ms,
            ),
    {
        let ghost client = client_of(servers@, env_overrides@, session_id@, process_env@);
        let ghost pairs = self.config.servers.pairs();
        let ghost before = self.slots@;
        let mut out: Vec<Tool> = Vec::new();
        let n: usize = self.config.servers.len();
        let mut i: usize = 0;
        assert(tools_view(out@) =~= visible_tools(pairs.take(0), before, client));
        assert(self.slots@ =~= slots_used(pairs.take(0), before, client, now_ms));
        while i < n
            invariant
                self.config == old(self).config,
                pairs == self.config.servers.pairs(),
                client == client_of(servers@, env_overrides@, session_id@, process_env@),
                n == pairs.len(),
                i <= n,
                entry::distinct_slots(before),
                entry::distinct_slots(self.slots@),
                tools_view(out@) == visible_tools(pairs.take(i as int), before, client),
                self.slots@ == slots_used(pairs.take(i as int), before, client, now_ms),
            decreases n - i,
        {
            let ghost so_far = self.slots@;
            proof {
                assert(pairs.take(i + 1).drop_last() =~= pairs.take(i as int));
                lemma_asked_push(pairs, i as int, client);
            }
            let name: &String = self.config.servers.name_at(i);
            let srv: &ServerConfig = self.config.servers.value_at(i);
            let ghost pair = pairs[i as int];
            let ghost key_view = key_for(pair.0, pair.1, client);
            if (servers.len() == 0 || contains_text(servers, name.as_str()))
                && !is_server_disabled(name.as_str(), srv, process_env) {
                let scope = sharing_env_key(srv, env_overrides, session_id);
                let key = BackendKey::new(name.as_str(), scope.as_str());
                proof {
                    assert(asked_for(pair.0, pair.1, client.servers, client.process_env));
                    lemma_same_keys(before, so_far, key_view);
                }
                match find_slot(&self.slots, &key) {
                    Some(at) => {
                        proof {
                            assert(so_far[at as int].entry.backend
                                == before[at as int].entry.backend);
                        }
                        copy_tools_to(&self.slots[at].entry.backend.tools, &mut out);
                        touch_at(&mut self.slots, at, now_ms);
                        proof {
                            assert(self.slots@ =~= slots_used(
                                pairs.take(i + 1),
                                before,
                                client,
                                now_ms,
                            )) by {
                                assert forall|k: int| 0 <= k < before.len() implies
                                    #[trigger] self.slots@[k] == slots_used(
                                    pairs.take(i + 1),
                                    before,
                                    client,
                                    now_ms,
                                )[k] by {
                                    if k != at && before[k].key@ == key_view {
                                        assert(before[k].key@ == before[at as int].key@);
                                    }
                                }
                            }
                        }
                    },
                    None => {
                        proof {
                            assert forall|k: int| 0 <= k < before.len() implies before[k].key@
                                != key_view by {
                                if before[k].key@ == key_view {
                                    assert(entry::keyed_at(before, key_view, k));
                                }
                            }
                            assert(self.slots@ =~= slots_used(
                                pairs.take(i + 1),
                                before,
                                client,
                                now_ms,
                            ));
                        }
                    },
                }
            } else {
                assert(!asked_for(pair.0, pair.1, client.servers, client.process_env));
                assert(self.slots@ =~= slots_used(pairs.take(i + 1), before, client, now_ms));
            }
            i = i + 1;
        }
        assert(pairs.take(n as int) =~= pairs);
        out
    }

    /// The place in the config of the server that owns the tool.
    fn owner_at(
        &self,
        tool: &str,
        servers: &Vec<String>,
        process_env: &NameMap<String>,
        Ghost(client): Ghost<Client>,
    ) -> (r: Option<usize>)
        requires
            client.servers == crate::text::texts(servers@),
            client.process_env == process_env@,
        ensures
            r is Some == owned(self.config.servers.pairs(), tool@, client),
            r matches Some(i) ==> owns(self.config.servers.pairs(), i as int, tool@, client) && i
                == owner(self.config.servers.pairs(), tool@, client),
    {
        let ghost pairs = self.config.servers.pairs();
        let n: usize = self.config.servers.len();
        let tool_len: usize = tool.unicode_len();
        let mut best: Option<usize> = None;
        let mut best_len: usize = 0;
        let mut i: usize = 0;
        while i < n
            invariant
                client.servers == crate::text::texts(servers@),
                client.process_env == process_env@,
                pairs == self.config.servers.pairs(),
                n == pairs.len(),
                i <= n,
                tool_len == tool@.len(),
                best matches Some(b) ==> b < i && may_own(pairs, b as int, tool@, client)
                    && pairs[b as int].0.len() == best_len,
                best is None ==> forall|j: int| 0 <= j < i ==> !#[trigger] may_own(
                    pairs,
                    j,
                    tool@,
                    client,
                ),
                best is Some ==> forall|j: int|
                    0 <= j < i && #[trigger] may_own(pairs, j, tool@, client)
                        ==> pairs[j].0.len() <= best_len,
            decreases n - i,
        {
            let name: &String = self.config.servers.name_at(i);
            let srv: &ServerConfig = self.config.servers.value_at(i);
            let len: usize = name.as_str().unicode_len();
            if (servers.len() == 0 || contains_text(servers, name.as_str()))
                && !is_server_disabled(name.as_str(), srv, process_env) {
                let prefix = cat(name.as_str(), "_");
                proof {
                    reveal_strlit("_");
                }
                if begins_with(tool, prefix.as_str()) && tool_len - 1 > len {
                    assert(may_own(pairs, i as int, tool@, client));
                    if best.is_none() || len > best_len {
                        best = Some(i);
                        best_len = len;
                    }
                } else {
                    assert(!may_own(pairs, i as int, tool@, client));
                }
            }
            i = i + 1;
        }
        proof {
            match best {
                Some(b) => {
                    assert(owns(pairs, b as int, tool@, client));
                    lemma_one_owner(
                        pairs,
                        b as int,
                        owner(pairs, tool@, client),
                        tool@,
                        client,
                    );
                },
                None => {
                    if owned(pairs, tool@, client) {
                        let j = owner(pairs, tool@, client);
                        assert(may_own(pairs, j, tool@, client));
                    }
                },
            }
        }
        best
    }

    /// Finds the server that owns the tool: the one with the longest name of
    /// those whose name, with `_`, the tool's name begins with.
    pub fn server_for_tool(
        &self,
        tool: &str,
        servers: &Vec<String>,
        process_env: &NameMap<String>,
    ) -> (r: Option<(String, ServerConfig)>)
        ensures
            ({
                let client = client_of(servers@, no_texts(), Seq::empty(), process_env@);
                let pairs = self.config.servers.pairs();
                &&& r is Some == owned(pairs, tool@, client)
                &&& r matches Some((name, srv)) ==> {
                    let i = owner(pairs, tool@, client);
                    owns(pairs, i, tool@, client) && name@ == pairs[i].0 && srv@ == pairs[i].1
                }
            }),
    {
        let ghost client = client_of(servers@, no_texts(), Seq::empty(), process_env@);
        match self.owner_at(tool, servers, process_env, Ghost(client)) {
            Some(i) => Some(
                (self.config.servers.name_at(i).clone(), self.config.servers.value_at(i).duplicate()),
            ),
            None => None,
        }
    }

    /// Where a call goes, if some server owns the tool.
    pub fn route(
        &self,
        tool: &str,
        servers: &Vec<String>,
        env_overrides: &NameMap<String>,
        session_id: &str,
        process_env: &NameMap<String>,
    ) -> (r: Option<Route>)
        ensures
            ({
                let client = client_of(servers@, env_overrides@, session_id@, process_env@);
                let pairs = self.config.servers.pairs();
                &&& r is Some == owned(pairs, tool@, client)
                &&& r matches Some(route) ==> routes(
                    pairs,
                    tool@,
                    client,
                    route.key@,
                    route.stripped@,
                )
            }),
    {
        let ghost client = client_of(servers@, env_overrides@, session_id@, process_env@);
        match self.owner_at(tool, servers, process_env, Ghost(client)) {
            Some(i) => {
                let name: &String = self.config.servers.name_at(i);
                let srv: &ServerConfig = self.config.servers.value_at(i);
                let scope = sharing_env_key(srv, env_overrides, session_id);
                let prefix = cat(name.as_str(), "_");
                match without_prefix(tool, prefix.as_str()) {
                    Some(stripped) => Some(
                        Route { key: BackendKey::new(name.as_str(), scope.as_str()), stripped },
                    ),
                    None => None,
                }
            },
            None => None,
        }
    }

    /// Begins a call: refuses it if no server owns the tool; else calls the
    /// backend if it is there, or has it started.
    pub fn start_call(
        &mut self,
        tool: &str,
        servers: &Vec<String>,
        env_overrides: &NameMap<String>,
        session_id: &str,
        process_env: &NameMap<String>,
        now_ms: u64,
    ) -> (r: CallStart)
        requires
            old(self).wf(),
        ensures
            final(self).wf(),
            final(self).config == old(self).config,
            call_begins(
                r,
                tool@,
                old(self).config.servers.pairs(),
                client_of(servers@, env_overrides@, session_id@, process_env@),
                old(self).slots@,
                final(self).slots@,
                now_ms,
            ),
    {
        match self.route(tool, servers, env_overrides, session_id, process_env) {
            None => CallStart::Refused(RpcError::ToolNotFound(tool.to_owned())),
            Some(route) => match find_slot(&self.slots, &route.key) {
                Some(i) => {
                    let target = target_of(
                        &self.slots[i].entry.backend.tools,
                        tool,
                        route.stripped.as_str(),
                    );
                    touch_at(&mut self.slots, i, now_ms);
                    CallStart::Invoke { route, target }
                },
                None => CallStart::Spawn { route },
            },
        }
    }

    /// The first attempt has an answer. A success, or an error of a live
    /// process, ends the call; if the process is dead, its entry goes and the
    /// call is tried again. The health snapshot is taken anew before that.
    pub fn after_call(
        &mut self,
        key: &BackendKey,
        crashed: bool,
        answer: Result<Json, String>,
    ) -> (r: AfterCall)
        requires
            old(self).wf(),
        ensures
            final(self).wf(),
            final(self).config == old(self).config,
            call_ends(
                r,
                key@,
                crashed,
                crate::backend::answer_view(answer),
                old(self).slots@,
                final(self).slots@,
            ),
    {
        if answer.is_ok() || !crashed {
            match find_slot(&self.slots, key) {
                Some(i) => {
                    let ghost before = self.slots@;
                    self.slots[i].entry.sync();
                    proof {
                        assert(self.slots@ =~= before.update(
                            i as int,
                            entry::synced_slot(before[i as int]),
                        ));
                        lemma_update_keeps_keys(before, i as int, self.slots@[i as int]);
                    }
                },
                None => {},
            }
            return AfterCall::Done(outcome(answer));
        }
        AfterCall::Retry(self.remove(key))
    }

    /// The backend has been started for the second attempt: calls it, unless
    /// it is gone again.
    pub fn call_again(&mut self, route: &Route, tool: &str, now_ms: u64) -> (r: Result<
        String,
        RpcError,
    >)
        requires
            old(self).wf(),
        ensures
            final(self).wf(),
            final(self).config == old(self).config,
            called_again(
                r,
                route.key@,
                route.stripped@,
                tool@,
                old(self).slots@,
                final(self).slots@,
                now_ms,
            ),
    {
        match find_slot(&self.slots, &route.key) {
            Some(i) => {
                let target = target_of(
                    &self.slots[i].entry.backend.tools,
                    tool,
                    route.stripped.as_str(),
                );
                touch_at(&mut self.slots, i, now_ms);
                Ok(target)
            },
            None => Err(RpcError::ToolNotFound(tool.to_owned())),
        }
    }

    /// The second attempt has an answer, and with it the call.
    pub fn finish_call(&mut self, key: &BackendKey, answer: Result<Json, String>) -> (r: Result<
        Json,
        RpcError,
    >)
        requires
            old(self).wf(),
        ensures
            final(self).wf(),
            final(self).config == old(self).config,
            crate::jsonrpc::outcome_view(r) == call_outcome(crate::backend::answer_view(answer)),
            ({
                let slots = old(self).slots@;
                let p = entry::place_of_key(slots, key@);
                final(self).slots@ == (if entry::has_key(slots, key@) {
                    slots.update(p, entry::synced_slot(slots[p]))
                } else {
                    slots
                })
            }),
    {
        match self.after_call(key, false, answer) {
            AfterCall::Done(o) => o,
            AfterCall::Retry(_) => Ok(Json::Null),
        }
    }

    /// The health of the pool.
    pub fn health(&self, now_ms: u64) -> (r: Json)
        ensures
            r@ == health_json(self.slots@, now_ms),
    {
        let ghost all = self.slots@;
        let mut items: Vec<Json> = Vec::new();
        let mut count: u64 = 0;
        let mut i: usize = 0;
        let n: usize = self.slots.len();
        assert(crate::json::items_view(items@) =~= Seq::new(
            0,
            |k: int| health_item(all[k], now_ms),
        ));
        assert(all.take(0) =~= Seq::empty());
        while i < n
            invariant
                all == self.slots@,
                n == all.len(),
                i <= n,
                crate::json::items_view(items@) == Seq::new(
                    i as nat,
                    |k: int| health_item(all[k], now_ms),
                ),
                count == picked(all.take(i as int), |s: Slot| of_session(s)).len(),
                count <= i,
            decreases n - i,
        {
            let s: &Slot = &self.slots[i];
            let item = health_of(s, now_ms);
            proof {
                crate::json::lemma_items_push(items@, item);
                assert(crate::json::items_view(items@).push(item@) =~= Seq::new(
                    (i + 1) as nat,
                    |k: int| health_item(all[k], now_ms),
                ));
                assert(all.take(i + 1) =~= all.take(i as int).push(all[i as int]));
                crate::picked::lemma_picked_push(
                    all.take(i as int),
                    all[i as int],
                    |s: Slot| of_session(s),
                );
            }
            items.push(item);
            let scope: &str = s.key.scope.as_str();
            if !same_text(scope, DEFAULT_ENV_KEY) && !begins_with(scope, ENV_KEY_PREFIX)
                && begins_with(scope, SESSION_KEY_PREFIX) {
                count = count + 1;
            }
            i = i + 1;
        }
        assert(all.take(n as int) =~= all);
        let mut m: Vec<(String, Json)> = Vec::new();
        put(&mut m, "backends", Json::Array(items));
        put(&mut m, "session_count", Json::UInt(count));
        Json::Object(m)
    }

    /// Takes all backends of a session out of the pool.
    pub fn cleanup_session(&mut self, session_id: &str) -> (r: Vec<Slot>)
        requires
            old(self).wf(),
        ensures
            final(self).wf(),
            final(self).config == old(self).config,
            final(self).slots@ == picked(old(self).slots@, outside_session(session_id@)),
            r@ == picked(old(self).slots@, inside_session(session_id@)),
    {
        let scope = cat(SESSION_KEY_PREFIX, session_id);
        let ghost dead = inside_session(session_id@);
        let ghost alive = outside_session(session_id@);
        let ghost all = self.slots@;
        let mut slots: Vec<Slot> = Vec::new();
        std::mem::swap(&mut slots, &mut self.slots);
        let mut kept: Vec<Slot> = Vec::new();
        let mut removed: Vec<Slot> = Vec::new();
        assert(all.take(0) =~= Seq::empty());
        for s in it: slots.into_iter()
            invariant
                it.seq() == all,
                scope@ == "session:"@ + session_id@,
                dead == inside_session(session_id@),
                alive == outside_session(session_id@),
                kept@ == picked(all.take(it.index() as int), alive),
                removed@ == picked(all.take(it.index() as int), dead),
        {
            proof {
                let i = it.index() as int;
                assert(all.take(i + 1) =~= all.take(i).push(all[i]));
                crate::picked::lemma_picked_push(all.take(i), all[i], alive);
                crate::picked::lemma_picked_push(all.take(i), all[i], dead);
            }
            if s.key.scope == scope {
                removed.push(s);
            } else {
                kept.push(s);
            }
        }
        proof {
            assert(all.take(all.len() as int) =~= all);
            entry::lemma_picked_slots(all, alive);
        }
        self.slots = kept;
        removed
    }

    /// Closes the input of every backend, so that it can exit by itself.
    pub fn shutdown(&mut self)
        requires
            old(self).wf(),
        ensures
            final(self).wf(),
            final(self).config == old(self).config,
            final(self).slots@ == Seq::new(
                old(self).slots@.len(),
                |i: int| closed_slot(old(self).slots@[i]),
            ),
    {
        let ghost before = self.slots@;
        let n: usize = self.slots.len();
        let mut i: usize = 0;
        while i < n
            invariant
                self.config == old(self).config,
                n == before.len(),
                self.slots@.len() == n,
                i <= n,
                forall|k: int| 0 <= k < i ==> #[trigger] self.slots@[k] == closed_slot(before[k]),
                forall|k: int| i <= k < n ==> #[trigger] self.slots@[k] == before[k],
            decreases n - i,
        {
            self.slots[i].entry.backend.kill();
            i = i + 1;
        }
        proof {
            assert(self.slots@ =~= Seq::new(before.len(), |i: int| closed_slot(before[i])));
            assert forall|a: int, b: int|
                0 <= a < n && 0 <= b < n && self.slots@[a].key@ == self.slots@[b].key@ implies a
                == b by {
                assert(before[a].key@ == before[b].key@);
            }
        }
    }
}

/// The slot with the input of its backend closed.
pub open spec fn closed_slot(s: Slot) -> Slot {
    Slot {
        entry: BackendEntry {
            backend: Backend { stdin_open: false, ..s.entry.backend },
            ..s.entry
        },
        ..s
    }
}

/// The client that asks for `servers` with the given overrides and session.
pub open spec fn client_of(
    servers: Seq<String>,
    overrides: Texts,
    session: Seq<char>,
    process_env: Texts,
) -> Client {
    Client { servers: crate::text::texts(servers), overrides, session, process_env }
}

/// Marks the entry at place `i` as used.
fn touch_at(slots: &mut Vec<Slot>, i: usize, now_ms: u64)
    requires
        i < old(slots)@.len(),
        entry::distinct_slots(old(slots)@),
    ensures
        final(slots)@ == old(slots)@.update(
            i as int,
            entry::touched_slot(old(slots)@[i as int], now_ms),
        ),
        entry::distinct_slots(final(slots)@),
{
    let ghost before = slots@;
    slots[i].entry.touch(now_ms);
    proof {
        assert(slots@ =~= before.update(
            i as int,
            entry::touched_slot(before[i as int], now_ms),
        ));
        lemma_update_keeps_keys(before, i as int, slots@[i as int]);
    }
}

proof fn lemma_update_keeps_keys(slots: Seq<Slot>, i: int, s: Slot)
    requires
        entry::distinct_slots(slots),
        0 <= i < slots.len(),
        s.key@ == slots[i].key@,
    ensures
        entry::distinct_slots(slots.update(i, s)),
{
    let t = slots.update(i, s);
    assert forall|a: int, b: int|
        0 <= a < t.len() && 0 <= b < t.len() && t[a].key@ == t[b].key@ implies a == b by {
        assert(slots[a].key@ == slots[b].key@);
    }
}

/// The slot is one of the session.
pub open spec fn inside_session(session: Seq<char>) -> spec_fn(Slot) -> bool {
    |s: Slot| s.key.scope@ == "session:"@ + session
}

/// The slot is not one of the session.
pub open spec fn outside_session(session: Seq<char>) -> spec_fn(Slot) -> bool {
    |s: Slot| s.key.scope@ != "session:"@ + session
}

/// The slot has another key.
pub open spec fn other_than(key: (Seq<char>, Seq<char>)) -> spec_fn(Slot) -> bool {
    |s: Slot| s.key@ != key
}

proof fn lemma_remove_is_pick(slots: Seq<Slot>, key: (Seq<char>, Seq<char>), i: int)
    requires
        entry::distinct_slots(slots),
        entry::keyed_at(slots, key, i),
    ensures
        slots.remove(i) == picked(slots, other_than(key)),
    decreases slots.len(),
{
    let f = other_than(key);
    let t = slots.drop_last();
    assert(entry::distinct_slots(t)) by {
        assert forall|a: int, b: int|
            0 <= a < t.len() && 0 <= b < t.len() && t[a].key@ == t[b].key@ implies a == b by {
            assert(slots[a].key@ == slots[b].key@);
        }
    }
    if i == slots.len() - 1 {
        assert forall|k: int| 0 <= k < t.len() implies f(#[trigger] t[k]) by {
            if t[k].key@ == key {
                assert(slots[k].key@ == slots[i].key@);
            }
        }
        crate::picked::lemma_picked_all(t, f);
        assert(slots.remove(i) =~= t);
    } else {
        assert(entry::keyed_at(t, key, i));
        lemma_remove_is_pick(t, key, i);
        assert(slots.last().key@ != key) by {
            if slots[slots.len() - 1].key@ == key {
                assert(slots[slots.len() - 1].key@ == slots[i].key@);
            }
        }
        assert(slots.remove(i) =~= t.remove(i).push(slots.last()));
    }
}

proof fn lemma_asked_push(servers: Seq<(Seq<char>, ServerView)>, i: int, client: Client)
    requires
        0 <= i < servers.len(),
    ensures
        forall|key: (Seq<char>, Seq<char>)| #[trigger]
            key_asked_for(servers.take(i + 1), key, client) == (key_asked_for(
                servers.take(i),
                key,
                client,
            ) || (asked_for(servers[i].0, servers[i].1, client.servers, client.process_env)
                && key_for(servers[i].0, servers[i].1, client) == key)),
{
    let a = servers.take(i);
    let b = servers.take(i + 1);
    assert forall|key: (Seq<char>, Seq<char>)| #[trigger] key_asked_for(b, key, client) == (
    key_asked_for(a, key, client) || (asked_for(
        servers[i].0,
        servers[i].1,
        client.servers,
        client.process_env,
    ) && key_for(servers[i].0, servers[i].1, client) == key)) by {
        if key_asked_for(b, key, client) {
            let k = choose|k: int|
                0 <= k < b.len() && asked_for(
                    (#[trigger] b[k]).0,
                    b[k].1,
                    client.servers,
                    client.process_env,
                ) && key_for(b[k].0, b[k].1, client) == key;
            if k < i {
                assert(a[k] == b[k]);
            }
        }
        if key_asked_for(a, key, client) {
            let k = choose|k: int|
                0 <= k < a.len() && asked_for(
                    (#[trigger] a[k]).0,
                    a[k].1,
                    client.servers,
                    client.process_env,
                ) && key_for(a[k].0, a[k].1, client) == key;
            assert(a[k] == b[k]);
        }
        assert(b[i] == servers[i]);
    }
}

proof fn lemma_same_keys(a: Seq<Slot>, b: Seq<Slot>, key: (Seq<char>, Seq<char>))
    requires
        a.len() == b.len(),
        forall|i: int| 0 <= i < a.len() ==> (#[trigger] a[i]).key@ == b[i].key@,
        entry::distinct_slots(a),
        entry::distinct_slots(b),
    ensures
        entry::has_key(a, key) == entry::has_key(b, key),
        entry::has_key(a, key) ==> entry::place_of_key(a, key) == entry::place_of_key(b, key),
{
    if entry::has_key(a, key) {
        let i = entry::place_of_key(a, key);
        assert(a[i].key@ == b[i].key@);
        assert(entry::keyed_at(b, key, i));
        let j = entry::place_of_key(b, key);
        assert(b[i].key@ == b[j].key@);
    }
    if entry::has_key(b, key) {
        let i = entry::place_of_key(b, key);
        assert(a[i].key@ == b[i].key@);
        assert(entry::keyed_at(a, key, i));
    }
}

// ---------------------------------------------------------------------------
// Laws
// ---------------------------------------------------------------------------

/// Cleaning a session up takes out exactly its own backends.
pub proof fn cleanup_ends_only_that_session(slots: Seq<Slot>, session: Seq<char>, s: Slot)
    requires
        slots.contains(s),
    ensures
        picked(slots, outside_session(session)).contains(s) == (s.key.scope@ != "session:"@
            + session),
        picked(slots, inside_session(session)).contains(s) == (s.key.scope@ == "session:"@
            + session),
{
    crate::picked::lemma_picked(slots, outside_session(session));
    crate::picked::lemma_picked(slots, inside_session(session));
}

/// A backend that has been taken out is no longer found, so that the next
/// request starts a new one.
pub proof fn removed_backend_is_not_found(slots: Seq<Slot>, key: (Seq<char>, Seq<char>))
    ensures
        !entry::has_key(picked(slots, other_than(key)), key),
{
    let rest = picked(slots, other_than(key));
    crate::picked::lemma_picked(slots, other_than(key));
    if entry::has_key(rest, key) {
        let i = entry::place_of_key(rest, key);
        assert(other_than(key)(rest[i]));
    }
}

/// A reaped backend is no longer found, so that the next request starts a new
/// one.
pub proof fn reaped_backend_is_not_found(
    slots: Seq<Slot>,
    servers: Map<Seq<char>, ServerView>,
    i: int,
    now_ms: u64,
)
    requires
        entry::distinct_slots(slots),
        0 <= i < slots.len(),
        reap::stale(servers, now_ms)(slots[i]),
    ensures
        !entry::has_key(picked(slots, reap::fresh(servers, now_ms)), slots[i].key@),
{
    let f = reap::fresh(servers, now_ms);
    let rest = picked(slots, f);
    crate::picked::lemma_picked(slots, f);
    if entry::has_key(rest, slots[i].key@) {
        let k = entry::place_of_key(rest, slots[i].key@);
        assert(f(rest[k]));
        assert(rest.contains(rest[k]));
        let m = choose|m: int| 0 <= m < slots.len() && slots[m] == rest[k];
        assert(slots[m].key@ == slots[i].key@);
    }
}

/// The backend of a session that was cleaned up is no longer found.
pub proof fn cleaned_up_backend_is_not_found(
    slots: Seq<Slot>,
    session: Seq<char>,
    server: Seq<char>,
)
    ensures
        !entry::has_key(
            picked(slots, outside_session(session)),
            (server, "session:"@ + session),
        ),
{
    let rest = picked(slots, outside_session(session));
    crate::picked::lemma_picked(slots, outside_session(session));
    let key = (server, "session:"@ + session);
    if entry::has_key(rest, key) {
        let i = entry::place_of_key(rest, key);
        assert(outside_session(session)(rest[i]));
    }
}

/// A call whose backend is not there, because it was never started or because
/// it was reaped, removed as dead or cleaned up, is not refused: the backend
/// is started, for the very same server and scope.
pub proof fn missing_backend_is_started(
    r: CallStart,
    tool: Seq<char>,
    servers: Seq<(Seq<char>, ServerView)>,
    client: Client,
    key: (Seq<char>, Seq<char>),
    stripped: Seq<char>,
    slots: Seq<Slot>,
    after: Seq<Slot>,
    now_ms: u64,
)
    requires
        routes(servers, tool, client, key, stripped),
        !entry::has_key(slots, key),
        call_begins(r, tool, servers, client, slots, after, now_ms),
    ensures
        r matches CallStart::Spawn { route } && route.key@ == key && route.stripped@ == stripped,
{
    let i = owner(servers, tool, client);
    assert(owns(servers, i, tool, client));
    let name = servers[i].0;
    match r {
        CallStart::Refused(_) => {},
        CallStart::Invoke { route, target } => {},
        CallStart::Spawn { route } => {
            let full = crate::backend::tool_name(name, stripped);
            assert(full.subrange((name + "_"@).len() as int, full.len() as int) =~= stripped);
            assert(crate::backend::tool_name(name, route.stripped@).subrange(
                (name + "_"@).len() as int,
                full.len() as int,
            ) =~= route.stripped@);
        },
    }
}

/// A backend that has been put into the pool is found, with nothing lost.
pub proof fn inserted_backend_is_found(slots: Seq<Slot>, s: Slot, key: (Seq<char>, Seq<char>))
    requires
        entry::distinct_slots(slots),
    ensures
        entry::has_key(entry::with_slot(slots, s), s.key@),
        entry::has_key(slots, key) ==> entry::has_key(entry::with_slot(slots, s), key),
{
    entry::lemma_with_slot(slots, s);
}

/// A call to a server that is shared by nobody goes to a backend of the
/// caller's own session: no call of another session goes there, whatever tool
/// it names.
pub proof fn session_backends_are_not_shared(
    servers: Seq<(Seq<char>, ServerView)>,
    a: Client,
    tool_a: Seq<char>,
    key_a: (Seq<char>, Seq<char>),
    stripped_a: Seq<char>,
    b: Client,
    tool_b: Seq<char>,
    key_b: (Seq<char>, Seq<char>),
    stripped_b: Seq<char>,
)
    requires
        crate::names::distinct_names(servers),
        routes(servers, tool_a, a, key_a, stripped_a),
        routes(servers, tool_b, b, key_b, stripped_b),
        servers[owner(servers, tool_a, a)].1.shared == crate::config::Sharing::Session,
        a.session != b.session,
    ensures
        key_a != key_b,
{
    let i = owner(servers, tool_a, a);
    let j = owner(servers, tool_b, b);
    assert(may_own(servers, i, tool_a, a));
    assert(may_own(servers, j, tool_b, b));
    if key_a == key_b {
        assert(servers[i].0 == servers[j].0);
        assert(i == j);
        env_key::sessions_have_scopes_of_their_own(
            servers[i].1,
            a.overrides,
            b.overrides,
            a.session,
            b.session,
        );
    }
}

/// The owner of a tool has the longest name of all servers that could own it.
pub proof fn longest_name_owns(
    servers: Seq<(Seq<char>, ServerView)>,
    i: int,
    j: int,
    tool: Seq<char>,
    client: Client,
)
    requires
        crate::names::distinct_names(servers),
        owns(servers, i, tool, client),
        may_own(servers, j, tool, client),
        j != i,
    ensures
        servers[j].0.len() < servers[i].0.len(),
{
    if servers[j].0.len() == servers[i].0.len() {
        assert(owns(servers, j, tool, client)) by {
            assert forall|k: int| #[trigger] may_own(servers, k, tool, client) implies
                servers[k].0.len() <= servers[j].0.len() by {}
        }
        lemma_one_owner(servers, i, j, tool, client);
    }
}

/// The full name of a tool of a server that the client asks for is owned by
/// some server, as long as the tool's own name is not empty.
pub proof fn listed_names_are_owned(
    servers: Seq<(Seq<char>, ServerView)>,
    i: int,
    tool: Seq<char>,
    client: Client,
)
    requires
        0 <= i < servers.len(),
        asked_for(servers[i].0, servers[i].1, client.servers, client.process_env),
        tool.len() > 0,
    ensures
        owned(servers, crate::backend::tool_name(servers[i].0, tool), client),
{
    reveal_strlit("_");
    let full = crate::backend::tool_name(servers[i].0, tool);
    let prefix = servers[i].0 + "_"@;
    assert(full.subrange(0, prefix.len() as int) =~= prefix);
    assert(may_own(servers, i, full, client));
    let b = lemma_longest(servers, i, servers.len() as int, full, client);
    assert(owns(servers, b, full, client));
}

proof fn lemma_longest(
    servers: Seq<(Seq<char>, ServerView)>,
    i: int,
    n: int,
    tool: Seq<char>,
    client: Client,
) -> (b: int)
    requires
        0 <= i < n <= servers.len(),
        may_own(servers, i, tool, client),
    ensures
        0 <= b < n,
        may_own(servers, b, tool, client),
        forall|j: int|
            0 <= j < n && #[trigger] may_own(servers, j, tool, client) ==> servers[j].0.len()
                <= servers[b].0.len(),
    decreases n - i,
{
    if n == i + 1 {
        lemma_longest_before(servers, i, i, tool, client)
    } else {
        let b = lemma_longest(servers, i, n - 1, tool, client);
        if may_own(servers, n - 1, tool, client) && servers[n - 1].0.len() > servers[b].0.len() {
            n - 1
        } else {
            b
        }
    }
}

proof fn lemma_longest_before(
    servers: Seq<(Seq<char>, ServerView)>,
    i: int,
    n: int,
    tool: Seq<char>,
    client: Client,
) -> (b: int)
    requires
        0 <= n <= i < servers.len(),
        may_own(servers, i, tool, client),
    ensures
        0 <= b <= i,
        may_own(servers, b, tool, client),
        servers[b].0.len() >= servers[i].0.len(),
        forall|j: int|
            0 <= j < n && #[trigger] may_own(servers, j, tool, client) ==> servers[j].0.len()
                <= servers[b].0.len(),
    decreases n,
{
    if n == 0 {
        i
    } else {
        let b = lemma_longest_before(servers, i, n - 1, tool, client);
        if may_own(servers, n - 1, tool, client) && servers[n - 1].0.len() > servers[b].0.len() {
            n - 1
        } else {
            b
        }
    }
}

/// A tool is visible to a client if and only if it is one of the tools of the
/// backend, in the client's scope, of an enabled server that the client asks
/// for; a client that names no servers asks for all.
pub proof fn visible_tools_are_those_asked_for(
    servers: Seq<(Seq<char>, ServerView)>,
    slots: Seq<Slot>,
    client: Client,
    t: ToolView,
)
    requires
        entry::distinct_slots(slots),
    ensures
        visible_tools(servers, slots, client).contains(t) == exists|i: int, p: int|
            #![trigger servers[i], slots[p]]
            0 <= i < servers.len() && 0 <= p < slots.len() && (client.servers.len() == 0
                || client.servers.contains(servers[i].0)) && !crate::config::disabled(
                servers[i].0,
                servers[i].1,
                client.process_env,
            ) && slots[p].key.server@ == servers[i].0 && slots[p].key.scope@ == env_key::scope_of(
                servers[i].1,
                client.overrides,
                client.session,
            ) && tools_view(slots[p].entry.backend.tools@).contains(t),
    decreases servers.len(),
{
    if servers.len() > 0 {
        let rest = servers.drop_last();
        visible_tools_are_those_asked_for(rest, slots, client, t);
        let (name, srv) = servers.last();
        assert(servers[servers.len() - 1] == servers.last());
        let key = key_for(name, srv, client);
        let before = visible_tools(rest, slots, client);
        let all = visible_tools(servers, slots, client);
        if asked_for(name, srv, client.servers, client.process_env) && entry::has_key(slots, key) {
            let p = entry::place_of_key(slots, key);
            assert(entry::keyed_at(slots, key, p));
            crate::picked::lemma_add_contains(
                before,
                tools_view(slots[p].entry.backend.tools@),
                t,
            );
            assert(servers[servers.len() - 1].0 == name && slots[p].key.server@ == name);
        }
        if before.contains(t) {
            let (i, p) = choose|i: int, p: int|
                #![trigger rest[i], slots[p]]
                0 <= i < rest.len() && 0 <= p < slots.len() && (client.servers.len() == 0
                    || client.servers.contains(rest[i].0)) && !crate::config::disabled(
                    rest[i].0,
                    rest[i].1,
                    client.process_env,
                ) && slots[p].key.server@ == rest[i].0 && slots[p].key.scope@
                    == env_key::scope_of(rest[i].1, client.overrides, client.session)
                    && tools_view(slots[p].entry.backend.tools@).contains(t);
            assert(servers[i] == rest[i]);
            assert(slots[p].key.server@ == servers[i].0);
        }
        if exists|i: int, p: int|
            #![trigger servers[i], slots[p]]
            0 <= i < servers.len() && 0 <= p < slots.len() && (client.servers.len() == 0
                || client.servers.contains(servers[i].0)) && !crate::config::disabled(
                servers[i].0,
                servers[i].1,
                client.process_env,
            ) && slots[p].key.server@ == servers[i].0 && slots[p].key.scope@ == env_key::scope_of(
                servers[i].1,
                client.overrides,
                client.session,
            ) && tools_view(slots[p].entry.backend.tools@).contains(t) {
            let (i, p) = choose|i: int, p: int|
                #![trigger servers[i], slots[p]]
                0 <= i < servers.len() && 0 <= p < slots.len() && (client.servers.len() == 0
                    || client.servers.contains(servers[i].0)) && !crate::config::disabled(
                    servers[i].0,
                    servers[i].1,
                    client.process_env,
                ) && slots[p].key.server@ == servers[i].0 && slots[p].key.scope@
                    == env_key::scope_of(servers[i].1, client.overrides, client.session)
                    && tools_view(slots[p].entry.backend.tools@).contains(t);
            if i < rest.len() {
                assert(rest[i] == servers[i]);
                assert(before.contains(t));
            } else {
                assert(slots[p].key@ == key);
                entry::key_is_found_where_it_stands(slots, p);
            }
            assert(all.contains(t));
        }
    }
}

/// The tools come in the order of the servers.
pub proof fn visible_tools_follow_the_servers(
    a: Seq<(Seq<char>, ServerView)>,
    b: Seq<(Seq<char>, ServerView)>,
    slots: Seq<Slot>,
    client: Client,
)
    ensures
        visible_tools(a + b, slots, client) == visible_tools(a, slots, client) + visible_tools(
            b,
            slots,
            client,
        ),
    decreases b.len(),
{
    if b.len() == 0 {
        assert(a + b =~= a);
        assert(visible_tools(a, slots, client) + visible_tools(b, slots, client)
            =~= visible_tools(a, slots, client));
    } else {
        assert((a + b).drop_last() =~= a + b.drop_last());
        visible_tools_follow_the_servers(a, b.drop_last(), slots, client);
        assert(visible_tools(a + b, slots, client) =~= visible_tools(a, slots, client)
            + visible_tools(b, slots, client));
    }
}

/// A backend counts as used by a client if and only if it is that of an enabled
/// server that the client asks for, in the client's scope; the others stay as
/// they are.
pub proof fn only_what_is_asked_for_is_used(
    servers: Seq<(Seq<char>, ServerView)>,
    slots: Seq<Slot>,
    client: Client,
    now_ms: u64,
    p: int,
)
    requires
        0 <= p < slots.len(),
    ensures
        slots_used(servers, slots, client, now_ms).len() == slots.len(),
        (exists|i: int|
            0 <= i < servers.len() && (client.servers.len() == 0 || client.servers.contains(
                (#[trigger] servers[i]).0,
            )) && !crate::config::disabled(servers[i].0, servers[i].1, client.process_env)
                && slots[p].key.server@ == servers[i].0 && slots[p].key.scope@
                == env_key::scope_of(servers[i].1, client.overrides, client.session))
            ==> slots_used(servers, slots, client, now_ms)[p] == entry::touched_slot(
            slots[p],
            now_ms,
        ),
        !(exists|i: int|
            0 <= i < servers.len() && (client.servers.len() == 0 || client.servers.contains(
                (#[trigger] servers[i]).0,
            )) && !crate::config::disabled(servers[i].0, servers[i].1, client.process_env)
                && slots[p].key.server@ == servers[i].0 && slots[p].key.scope@
                == env_key::scope_of(servers[i].1, client.overrides, client.session))
            ==> slots_used(servers, slots, client, now_ms)[p] == slots[p],
{
    let key = slots[p].key@;
    assert forall|i: int| 0 <= i < servers.len() implies (asked_for(
        (#[trigger] servers[i]).0,
        servers[i].1,
        client.servers,
        client.process_env,
    ) && key_for(servers[i].0, servers[i].1, client) == key) == ((client.servers.len() == 0
        || client.servers.contains(servers[i].0)) && !crate::config::disabled(
        servers[i].0,
        servers[i].1,
        client.process_env,
    ) && slots[p].key.server@ == servers[i].0 && slots[p].key.scope@ == env_key::scope_of(
        servers[i].1,
        client.overrides,
        client.session,
    )) by {}
    if key_asked_for(servers, key, client) {
        let i = choose|i: int|
            0 <= i < servers.len() && asked_for(
                (#[trigger] servers[i]).0,
                servers[i].1,
                client.servers,
                client.process_env,
            ) && key_for(servers[i].0, servers[i].1, client) == key;
        assert(servers[i].0 == slots[p].key.server@);
    }
}

/// A server is not started before it is asked for if it is of a session, or if
/// it takes credentials and refers to a variable that the process environment
/// does not provide.
pub proof fn servers_wait_for_what_they_need(
    srv: ServerView,
    keys: Seq<Seq<char>>,
    process_env: Texts,
)
    requires
        env_key::lists_keys(keys, srv),
    ensures
        srv.shared == Sharing::Global ==> !deferred(srv, process_env),
        srv.shared == Sharing::Session ==> deferred(srv, process_env),
        srv.shared == Sharing::Credentials ==> deferred(srv, process_env) == exists|
            key: Seq<char>,
        | #[trigger]
            env_key::refers_to(srv, key) && !process_env.dom().contains(key),
{
    env_key::lemma_keys_unique(keys, srv);
    let missing = env_key::missing_keys(keys, no_texts(), process_env);
    if missing.len() > 0 {
        let key = missing[0];
        assert(missing.contains(key));
        env_key::missing_means_provided_by_nobody(keys, no_texts(), process_env, key);
        assert(keys.contains(key));
        assert(env_key::refers_to(srv, key));
    }
    if exists|key: Seq<char>| #[trigger]
        env_key::refers_to(srv, key) && !process_env.dom().contains(key) {
        let key = choose|key: Seq<char>| #[trigger]
            env_key::refers_to(srv, key) && !process_env.dom().contains(key);
        assert(keys.contains(key));
        env_key::missing_means_provided_by_nobody(keys, no_texts(), process_env, key);
    }
}

/// At boot exactly the enabled servers that do not have to wait are started, in
/// the default scope.
pub proof fn boot_starts_what_need_not_wait(
    servers: Seq<(Seq<char>, ServerView)>,
    process_env: Texts,
    name: Seq<char>,
    scope: Seq<char>,
)
    ensures
        boot_starts(servers, process_env).contains((name, scope)) == (scope == "__default__"@
            && exists|i: int|
            0 <= i < servers.len() && (#[trigger] servers[i]).0 == name
                && !crate::config::disabled(name, servers[i].1, process_env) && !deferred(
                servers[i].1,
                process_env,
            )),
    decreases servers.len(),
{
    if servers.len() > 0 {
        let rest = servers.drop_last();
        boot_starts_what_need_not_wait(rest, process_env, name, scope);
        let last = servers.last();
        assert(servers[servers.len() - 1] == last);
        env_key::default_scope_means_no_overrides(env_key::env_keys(last.1), no_texts());
        crate::picked::lemma_push_contains(
            boot_starts(rest, process_env),
            (last.0, "__default__"@),
            (name, scope),
        );
        if boot_starts(rest, process_env).contains((name, scope)) {
            let i = choose|i: int|
                0 <= i < rest.len() && (#[trigger] rest[i]).0 == name && !crate::config::disabled(
                    name,
                    rest[i].1,
                    process_env,
                ) && !deferred(rest[i].1, process_env);
            assert(servers[i] == rest[i]);
        }
        if exists|i: int|
            0 <= i < servers.len() && (#[trigger] servers[i]).0 == name
                && !crate::config::disabled(name, servers[i].1, process_env) && !deferred(
                servers[i].1,
                process_env,
            ) {
            let i = choose|i: int|
                0 <= i < servers.len() && (#[trigger] servers[i]).0 == name
                    && !crate::config::disabled(name, servers[i].1, process_env) && !deferred(
                    servers[i].1,
                    process_env,
                );
            if i < rest.len() {
                assert(rest[i] == servers[i]);
            }
        }
    }
}

/// At boot the images of exactly the enabled servers that have to wait and run
/// in containers are built.
pub proof fn boot_builds_images_of_those_that_wait(
    servers: Seq<(Seq<char>, ServerView)>,
    process_env: Texts,
    name: Seq<char>,
)
    ensures
        boot_images(servers, process_env).contains(name) == exists|i: int|
            0 <= i < servers.len() && (#[trigger] servers[i]).0 == name
                && !crate::config::disabled(name, servers[i].1, process_env) && deferred(
                servers[i].1,
                process_env,
            ) && servers[i].1.install is Some && servers[i].1.runtime
                == crate::config::Runtime::Docker,
    decreases servers.len(),
{
    if servers.len() > 0 {
        let rest = servers.drop_last();
        boot_builds_images_of_those_that_wait(rest, process_env, name);
        let last = servers.last();
        assert(servers[servers.len() - 1] == last);
        crate::picked::lemma_push_contains(boot_images(rest, process_env), last.0, name);
        if boot_images(rest, process_env).contains(name) {
            let i = choose|i: int|
                0 <= i < rest.len() && (#[trigger] rest[i]).0 == name && !crate::config::disabled(
                    name,
                    rest[i].1,
                    process_env,
                ) && deferred(rest[i].1, process_env) && rest[i].1.install is Some
                    && rest[i].1.runtime == crate::config::Runtime::Docker;
            assert(servers[i] == rest[i]);
        }
        if exists|i: int|
            0 <= i < servers.len() && (#[trigger] servers[i]).0 == name
                && !crate::config::disabled(name, servers[i].1, process_env) && deferred(
                servers[i].1,
                process_env,
            ) && servers[i].1.install is Some && servers[i].1.runtime
                == crate::config::Runtime::Docker {
            let i = choose|i: int|
                0 <= i < servers.len() && (#[trigger] servers[i]).0 == name
                    && !crate::config::disabled(name, servers[i].1, process_env) && deferred(
                    servers[i].1,
                    process_env,
                ) && servers[i].1.install is Some && servers[i].1.runtime
                    == crate::config::Runtime::Docker;
            if i < rest.len() {
                assert(rest[i] == servers[i]);
            }
        }
    }
}

/// Exactly the failures are reported, each with its server and its reason, in
/// order.
pub proof fn every_failure_is_reported(
    a: Seq<(String, Result<BackendKey, String>)>,
    b: Seq<(String, Result<BackendKey, String>)>,
    one: (String, Result<BackendKey, String>),
)
    ensures
        failed(a + b) == failed(a) + failed(b),
        one.1 is Err ==> failed(seq![one]) == seq![(one.0@, one.1->Err_0@)],
        one.1 is Ok ==> failed(seq![one]).len() == 0,
    decreases b.len(),
{
    reveal_with_fuel(failed, 2);
    assert(seq![one].drop_last() =~= Seq::empty());
    if one.1 is Err {
        assert(failed(seq![one]) =~= seq![(one.0@, one.1->Err_0@)]);
    }
    if b.len() == 0 {
        assert(a + b =~= a);
        assert(failed(a) + failed(b) =~= failed(a));
    } else {
        assert((a + b).drop_last() =~= a + b.drop_last());
        every_failure_is_reported(a, b.drop_last(), one);
        assert(failed(a + b) =~= failed(a) + failed(b));
    }
}

/// A server could own a tool if and only if the tool's name is the server's
/// name, `_`, and something more.
pub proof fn owner_is_the_prefix(server: Seq<char>, tool: Seq<char>)
    ensures
        could_own(server, tool) == exists|rest: Seq<char>|
            rest.len() > 0 && #[trigger] (server + "_"@ + rest) == tool,
{
    reveal_strlit("_");
    let n = (server + "_"@).len() as int;
    if could_own(server, tool) {
        let rest = tool.subrange(n, tool.len() as int);
        assert(server + "_"@ + rest =~= tool);
    }
    if exists|rest: Seq<char>| rest.len() > 0 && #[trigger] (server + "_"@ + rest) == tool {
        let rest = choose|rest: Seq<char>|
            rest.len() > 0 && #[trigger] (server + "_"@ + rest) == tool;
        assert(tool.subrange(0, n) =~= server + "_"@);
    }
}

/// What is called at the backend is the own name of the first of its tools that
/// clients see under the name called, or the name without the prefix.
pub proof fn call_reaches_the_tool_seen(
    tools: Seq<ToolView>,
    tool: Seq<char>,
    stripped: Seq<char>,
    k: int,
)
    requires
        0 <= k <= tools.len(),
        forall|j: int| 0 <= j < k ==> (#[trigger] tools[j]).name != tool,
        k < tools.len() ==> tools[k].name == tool,
    ensures
        call_target(tools, tool, stripped) == (if k < tools.len() {
            tools[k].original_name
        } else {
            stripped
        }),
    decreases tools.len(),
{
    if tools.len() > 0 && k > 0 {
        let rest = tools.subrange(1, tools.len() as int);
        assert(tools[0].name != tool);
        assert forall|j: int| 0 <= j < k - 1 implies (#[trigger] rest[j]).name != tool by {
            assert(rest[j] == tools[j + 1]);
        }
        call_reaches_the_tool_seen(rest, tool, stripped, k - 1);
    }
}

/// A call whose backend is there goes to that backend, which counts as a use of
/// it and changes no other.
pub proof fn present_backend_is_called(
    r: CallStart,
    tool: Seq<char>,
    servers: Seq<(Seq<char>, ServerView)>,
    client: Client,
    key: (Seq<char>, Seq<char>),
    stripped: Seq<char>,
    slots: Seq<Slot>,
    after: Seq<Slot>,
    p: int,
    now_ms: u64,
)
    requires
        entry::distinct_slots(slots),
        routes(servers, tool, client, key, stripped),
        0 <= p < slots.len(),
        slots[p].key@ == key,
        call_begins(r, tool, servers, client, slots, after, now_ms),
    ensures
        r matches CallStart::Invoke { route, target } && route.key@ == key && route.stripped@
            == stripped && target@ == call_target(
            tools_view(slots[p].entry.backend.tools@),
            tool,
            stripped,
        ),
        after.len() == slots.len(),
        after[p] == entry::touched_slot(slots[p], now_ms),
        forall|q: int| 0 <= q < slots.len() && q != p ==> #[trigger] after[q] == slots[q],
{
    entry::key_is_found_where_it_stands(slots, p);
    let i = owner(servers, tool, client);
    assert(owns(servers, i, tool, client));
    let name = servers[i].0;
    let n = (name + "_"@).len() as int;
    let full = crate::backend::tool_name(name, stripped);
    match r {
        CallStart::Refused(_) => {},
        CallStart::Invoke { route, target } => {
            assert(full.subrange(n, full.len() as int) =~= stripped);
            assert(crate::backend::tool_name(name, route.stripped@).subrange(n, full.len() as int)
                =~= route.stripped@);
        },
        CallStart::Spawn { route } => {},
    }
}

/// A call is refused, as one of an unknown tool, if and only if no enabled
/// server that the client asks for could own the tool; a refused call changes
/// nothing.
pub proof fn unowned_tools_are_refused(
    r: CallStart,
    tool: Seq<char>,
    servers: Seq<(Seq<char>, ServerView)>,
    client: Client,
    slots: Seq<Slot>,
    after: Seq<Slot>,
    now_ms: u64,
)
    requires
        call_begins(r, tool, servers, client, slots, after, now_ms),
    ensures
        r is Refused == forall|i: int|
            0 <= i < servers.len() ==> !((client.servers.len() == 0 || client.servers.contains(
                (#[trigger] servers[i]).0,
            )) && !crate::config::disabled(servers[i].0, servers[i].1, client.process_env)
                && could_own(servers[i].0, tool)),
        r matches CallStart::Refused(e) ==> e@ == RpcErrorView::ToolNotFound(tool) && after
            == slots,
{
    if exists|i: int|
        0 <= i < servers.len() && (client.servers.len() == 0 || client.servers.contains(
            (#[trigger] servers[i]).0,
        )) && !crate::config::disabled(servers[i].0, servers[i].1, client.process_env)
            && could_own(servers[i].0, tool) {
        let i = choose|i: int|
            0 <= i < servers.len() && (client.servers.len() == 0 || client.servers.contains(
                (#[trigger] servers[i]).0,
            )) && !crate::config::disabled(servers[i].0, servers[i].1, client.process_env)
                && could_own(servers[i].0, tool);
        assert(may_own(servers, i, tool, client));
        let b = lemma_longest(servers, i, servers.len() as int, tool, client);
        assert(owns(servers, b, tool, client));
    } else if !(r is Refused) {
        let i = owner(servers, tool, client);
        assert(owns(servers, i, tool, client));
        assert(may_own(servers, i, tool, client));
        assert(servers[i].0 == servers[i].0);
    }
}

/// The scope of a call is that of the server for the client.
pub proof fn calls_go_to_the_clients_scope(
    servers: Seq<(Seq<char>, ServerView)>,
    tool: Seq<char>,
    client: Client,
    key: (Seq<char>, Seq<char>),
    stripped: Seq<char>,
)
    requires
        routes(servers, tool, client, key, stripped),
    ensures
        exists|i: int|
            0 <= i < servers.len() && (#[trigger] servers[i]).0 == key.0 && key.1
                == env_key::scope_of(servers[i].1, client.overrides, client.session) && tool
                == key.0 + "_"@ + stripped && !crate::config::disabled(
                key.0,
                servers[i].1,
                client.process_env,
            ) && (client.servers.len() == 0 || client.servers.contains(key.0)),
{
    let i = owner(servers, tool, client);
    assert(owns(servers, i, tool, client));
    assert(servers[i].0 == key.0);
}

/// A failed call is an internal error with the reason of the backend.
pub proof fn backend_errors_are_internal(answer: Result<JsonView, Seq<char>>)
    ensures
        answer is Ok ==> call_outcome(answer) == Ok::<JsonView, RpcErrorView>(answer->Ok_0),
        answer is Err ==> call_outcome(answer) == Err::<JsonView, RpcErrorView>(
            RpcErrorView::Internal(answer->Err_0),
        ),
{
}

/// The health of a backend says its server, its state and its counts.
pub proof fn health_says_the_state(s: Slot, now_ms: u64)
    ensures
        ({
            let h = health_item(s, now_ms);
            &&& crate::json::member_of(h, "name"@) == Some(JsonView::Str(s.key.server@))
            &&& crate::json::member_of(h, "scope"@) == Some(
                JsonView::Str(scope_label(s.key.scope@)),
            )
            &&& crate::json::member_of(h, "ready"@) == Some(JsonView::Bool(s.entry.ready))
            &&& crate::json::member_of(h, "crashed"@) == Some(
                JsonView::Bool(s.entry.backend.crashed),
            )
        }),
{
    lemma_health_members();
}

/// The health of a backend says its counts and how long it has been idle.
pub proof fn health_says_the_counts(s: Slot, now_ms: u64)
    ensures
        ({
            let h = health_item(s, now_ms);
            &&& crate::json::member_of(h, "tools"@) == Some(
                JsonView::Int(s.entry.tool_count as int),
            )
            &&& crate::json::member_of(h, "restarts"@) == Some(
                JsonView::Int(s.entry.restart_count as int),
            )
            &&& s.entry.last_used_ms is None ==> crate::json::member_of(h, "idle_secs"@) == Some(
                JsonView::Null,
            )
            &&& s.entry.last_used_ms is Some && s.entry.last_used_ms->0 <= now_ms
                ==> crate::json::member_of(h, "idle_secs"@) == Some(
                JsonView::Int((now_ms - s.entry.last_used_ms->0) / 1000),
            )
        }),
{
    lemma_health_members();
}

proof fn lemma_health_members()
    ensures
        "name"@.len() == 4,
        "scope"@.len() == 5,
        "ready"@.len() == 5,
        "tools"@.len() == 5,
        "crashed"@.len() == 7,
        "restarts"@.len() == 8,
        "idle_secs"@.len() == 9,
        "scope"@ != "ready"@,
        "scope"@ != "tools"@,
        "ready"@ != "tools"@,
{
    reveal_strlit("name");
    reveal_strlit("scope");
    reveal_strlit("ready");
    reveal_strlit("tools");
    reveal_strlit("crashed");
    reveal_strlit("restarts");
    reveal_strlit("idle_secs");
    assert("scope"@[0] == 's' && "ready"@[0] == 'r' && "tools"@[0] == 't');
}

/// The health lists each backend in its place, and counts those of sessions.
pub proof fn health_lists_every_backend(slots: Seq<Slot>, now_ms: u64, i: int)
    ensures
        crate::json::member_of(health_json(slots, now_ms), "backends"@) matches Some(
            JsonView::Array(items),
        ) && items.len() == slots.len() && (0 <= i < slots.len() ==> items[i] == health_item(
            slots[i],
            now_ms,
        )),
        crate::json::member_of(health_json(slots, now_ms), "session_count"@) == Some(
            JsonView::Int(slots.filter(|s: Slot| of_session(s)).len() as int),
        ),
{
    reveal_strlit("backends");
    reveal_strlit("session_count");
    assert("backends"@.len() != "session_count"@.len());
    lemma_picked_is_filter(slots, |s: Slot| of_session(s));
}

proof fn lemma_picked_is_filter(slots: Seq<Slot>, f: spec_fn(Slot) -> bool)
    ensures
        picked(slots, f) == slots.filter(f),
    decreases slots.len(),
{
    reveal(Seq::filter);
    if slots.len() > 0 {
        lemma_picked_is_filter(slots.drop_last(), f);
    } else {
        assert(picked(slots, f) =~= slots.filter(f));
    }
}

/// The scopes by which backends are told apart are named in the health by the
/// sharing of their servers.
pub proof fn scopes_are_named_by_sharing(
    srv: ServerView,
    overrides: Texts,
    session: Seq<char>,
    key: BackendKey,
    e: BackendEntry,
)
    requires
        key.scope@ == env_key::scope_of(srv, overrides, session),
    ensures
        srv.shared == Sharing::Global ==> scope_label(key.scope@) == "global"@,
        srv.shared == Sharing::Session ==> scope_label(key.scope@) == "session"@,
        srv.shared == Sharing::Credentials ==> scope_label(key.scope@) == (if key.scope@
            == "__default__"@ {
            "global"@
        } else {
            "credentials"@
        }),
        of_session(Slot { key, entry: e }) == (srv.shared == Sharing::Session),
{
    reveal_strlit("__default__");
    reveal_strlit("env:");
    reveal_strlit("session:");
    let scope = key.scope@;
    assert("__default__"@[0] == '_');
    match srv.shared {
        Sharing::Global => {
            if crate::text::begins(scope, "session:"@) {
                assert(scope.subrange(0, 8)[0] == 's');
            }
        },
        Sharing::Session => {
            assert(scope[0] == 's');
            assert(scope.subrange(0, 8) =~= "session:"@);
            if crate::text::begins(scope, "env:"@) {
                assert(scope.subrange(0, 4)[0] == 'e');
            }
        },
        Sharing::Credentials => {
            if scope != "__default__"@ {
                assert(scope.subrange(0, 4) =~= "env:"@);
            }
        },
    }
}

/// Shutting down closes the input of a backend and changes nothing else of it.
pub proof fn shutdown_only_closes_input(s: Slot)
    ensures
        !closed_slot(s).entry.backend.stdin_open,
        closed_slot(s).key == s.key,
        closed_slot(s).entry.backend.tools == s.entry.backend.tools,
        closed_slot(s).entry.backend.ready == s.entry.backend.ready,
        closed_slot(s).entry.last_used_ms == s.entry.last_used_ms,
{
}

/// A backend is ensured unless the server is unknown, or its backend is not there
/// and it refers to a variable that neither the client nor the process
/// environment provides.
pub proof fn backends_need_what_they_refer_to(
    r: Result<Ensured, String>,
    name: Seq<char>,
    servers: Map<Seq<char>, ServerView>,
    keys: Seq<Seq<char>>,
    client: Client,
    slots: Seq<Slot>,
    after: Seq<Slot>,
    now_ms: u64,
)
    requires
        backend_is_ensured(r, name, servers, client, slots, after, now_ms),
        servers.dom().contains(name) ==> env_key::lists_keys(keys, servers[name]),
    ensures
        !servers.dom().contains(name) ==> r is Err,
        servers.dom().contains(name) ==> {
            let key = (
                name,
                env_key::scope_of(servers[name], client.overrides, client.session),
            );
            let lacking = exists|k: Seq<char>| #[trigger]
                env_key::refers_to(servers[name], k) && !client.overrides.dom().contains(k)
                    && !client.process_env.dom().contains(k);
            &&& r is Err == (!entry::has_key(slots, key) && lacking)
            &&& r matches Ok(Ensured::Present(k)) ==> k@ == key && entry::has_key(slots, key)
            &&& r matches Ok(Ensured::Spawn(k)) ==> k@ == key && !entry::has_key(slots, key)
        },
        after.len() == slots.len(),
{
    if servers.dom().contains(name) {
        let srv = servers[name];
        env_key::lemma_keys_unique(keys, srv);
        let missing = env_key::missing_keys(keys, client.overrides, client.process_env);
        if missing.len() > 0 {
            let k = missing[0];
            assert(missing.contains(k));
            env_key::missing_means_provided_by_nobody(
                keys,
                client.overrides,
                client.process_env,
                k,
            );
            assert(keys.contains(k));
            assert(env_key::refers_to(srv, k));
        }
        if exists|k: Seq<char>| #[trigger]
            env_key::refers_to(srv, k) && !client.overrides.dom().contains(k)
                && !client.process_env.dom().contains(k) {
            let k = choose|k: Seq<char>| #[trigger]
                env_key::refers_to(srv, k) && !client.overrides.dom().contains(k)
                    && !client.process_env.dom().contains(k);
            assert(keys.contains(k));
            env_key::missing_means_provided_by_nobody(
                keys,
                client.overrides,
                client.process_env,
                k,
            );
        }
    }
}

/// A backend that is there is ensured as it is: it counts as used, and no other
/// backend changes.
pub proof fn present_backend_is_used(
    r: Result<Ensured, String>,
    name: Seq<char>,
    servers: Map<Seq<char>, ServerView>,
    client: Client,
    slots: Seq<Slot>,
    after: Seq<Slot>,
    now_ms: u64,
    p: int,
)
    requires
        backend_is_ensured(r, name, servers, client, slots, after, now_ms),
        entry::distinct_slots(slots),
        servers.dom().contains(name),
        0 <= p < slots.len(),
        slots[p].key.server@ == name,
        slots[p].key.scope@ == env_key::scope_of(
            servers[name],
            client.overrides,
            client.session,
        ),
    ensures
        r matches Ok(Ensured::Present(k)) && k@ == slots[p].key@,
        after.len() == slots.len(),
        after[p] == entry::touched_slot(slots[p], now_ms),
        forall|q: int| 0 <= q < slots.len() && q != p ==> #[trigger] after[q] == slots[q],
{
    assert(slots[p].key@ == key_for(name, servers[name], client));
    entry::key_is_found_where_it_stands(slots, p);
}

/// A call that failed because the process is dead is tried again, and its backend
/// is out of the pool; any other call is done, with the answer as its outcome,
/// and no backend leaves.
pub proof fn only_dead_backends_are_replaced(
    r: AfterCall,
    key: (Seq<char>, Seq<char>),
    crashed: bool,
    answer: Result<JsonView, Seq<char>>,
    slots: Seq<Slot>,
    after: Seq<Slot>,
)
    requires
        call_ends(r, key, crashed, answer, slots, after),
    ensures
        r is Retry == (crashed && answer is Err),
        r is Retry ==> !entry::has_key(after, key),
        r is Done ==> after.len() == slots.len(),
        answer is Ok && r is Done ==> (r->Done_0 matches Ok(v) && v@ == answer->Ok_0),
        answer is Err && r is Done ==> (r->Done_0 matches Err(e) && e@ == RpcErrorView::Internal(
            answer->Err_0,
        )),
{
    removed_backend_is_not_found(slots, key);
}

/// A retry takes out only the dead backend.
pub proof fn retry_leaves_the_others(
    r: AfterCall,
    key: (Seq<char>, Seq<char>),
    answer: Result<JsonView, Seq<char>>,
    slots: Seq<Slot>,
    after: Seq<Slot>,
    s: Slot,
)
    requires
        call_ends(r, key, true, answer, slots, after),
        answer is Err,
        slots.contains(s),
    ensures
        after.contains(s) == (s.key@ != key),
{
    crate::picked::lemma_picked(slots, other_than(key));
}

/// The second try reaches the same tool of the backend that was started for it.
pub proof fn second_try_reaches_the_new_backend(
    r: Result<String, RpcError>,
    key: (Seq<char>, Seq<char>),
    stripped: Seq<char>,
    tool: Seq<char>,
    slots: Seq<Slot>,
    started: Slot,
    after: Seq<Slot>,
    now_ms: u64,
)
    requires
        entry::distinct_slots(slots),
        started.key@ == key,
        called_again(r, key, stripped, tool, entry::with_slot(slots, started), after, now_ms),
    ensures
        r matches Ok(target) && target@ == call_target(
            tools_view(started.entry.backend.tools@),
            tool,
            stripped,
        ),
{
    entry::lemma_with_slot(slots, started);
}

/// The message about missing variables names the server and each of them.
pub proof fn missing_variables_are_named(name: Seq<char>, missing: Seq<Seq<char>>, i: int)
    requires
        0 <= i < missing.len(),
    ensures
        crate::text::contains_pat(missing_env_message(name, missing), missing[i]),
        crate::text::contains_pat(
            missing_env_message(name, missing),
            "server '"@ + name + "' requires env vars not provided: "@,
        ),
{
    let none = Seq::<char>::empty();
    let a = "server '"@ + name + "' requires env vars not provided: "@;
    let b = crate::text::joined(missing, ", "@);
    crate::text::joined_holds_each_part(missing, ", "@, i);
    assert(missing_env_message(name, missing) =~= a + b + none);
    assert(missing_env_message(name, missing) =~= none + a + b);
    crate::text::lemma_stands_in_whole(a, b, none, missing[i]);
    crate::text::lemma_part_stands(none, a, b);
}

} // verus!
