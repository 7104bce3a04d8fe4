//! One MCP server process: its tools, its calls and its restarts.
//!
//! A [`Backend`] keeps what is known of a running process. The process itself
//! is driven from outside: whoever runs it writes the lines that `Backend`
//! hands out, and tells it what the process answered and when it exited.
use vstd::prelude::*;

use crate::config::{
    Runtime, ServerConfig, copy_opt_json, expand_env_within, opt_json, resolve_env,
};
use crate::glob::glob_match;
use crate::json::{Json, JsonView, js, no_members, put, text};
use crate::jsonrpc::{Notification, Request, Response};
use crate::names::{Duplicate, NameMap};
use crate::text::{cat, copy_opt, decimal_of};

verus! {

/// Timeout of a call if the server states none.
pub const DEFAULT_TIMEOUT_SECS: u64 = 30;

/// How often a backend is restarted if the server states nothing.
pub const DEFAULT_MAX_RESTARTS: u32 = 5;

/// How long a process may take to exit by itself before it is killed.
pub const KILL_GRACE_MILLIS: u64 = 500;

/// The MCP protocol version used in handshakes.
pub const MCP_PROTOCOL_VERSION: &'static str = "2024-11-05";

/// The version of this program.
pub const PROGRAM_VERSION: &'static str = "0.1.0";

// ---------------------------------------------------------------------------
// Tools
// ---------------------------------------------------------------------------

/// A tool of a backend.
pub struct Tool {
    /// The name that clients see: the server's name, `_`, and the tool's name.
    pub name: String,
    /// The description.
    pub description: Option<String>,
    /// The schema of the arguments.
    pub input_schema: Option<Json>,
    /// The name that the backend knows the tool by.
    pub original_name: String,
}

/// What a tool stands for.
#[verifier::ext_equal]
pub struct ToolView {
    pub name: Seq<char>,
    pub description: Option<Seq<char>>,
    pub input_schema: Option<JsonView>,
    pub original_name: Seq<char>,
}

impl View for Tool {
    type V = ToolView;

    open spec fn view(&self) -> ToolView {
        ToolView {
            name: self.name@,
            description: crate::text::opt_text(self.description),
            input_schema: opt_json(self.input_schema),
            original_name: self.original_name@,
        }
    }
}

impl Duplicate for Tool {
    fn duplicate(&self) -> (r: Self) {
        Tool {
            name: self.name.clone(),
            description: copy_opt(&self.description),
            input_schema: copy_opt_json(&self.input_schema),
            original_name: self.original_name.clone(),
        }
    }
}

/// What a list of tools stands for.
pub open spec fn tools_view(s: Seq<Tool>) -> Seq<ToolView> {
    Seq::new(s.len(), |i: int| s[i]@)
}

/// Copies a list of tools to the end of another.
pub fn copy_tools_to(from: &Vec<Tool>, to: &mut Vec<Tool>)
    ensures
        tools_view(final(to)@) == tools_view(old(to)@) + tools_view(from@),
{
    let ghost before = tools_view(to@);
    let mut i: usize = 0;
    assert(tools_view(to@) =~= before + tools_view(from@).take(0));
    while i < from.len()
        invariant
            i <= from@.len(),
            tools_view(to@) == before + tools_view(from@).take(i as int),
        decreases from@.len() - i,
    {
        let ghost so_far = to@;
        let t = from[i].duplicate();
        to.push(t);
        assert(tools_view(to@) =~= tools_view(so_far).push(from@[i as int]@));
        assert(tools_view(to@) =~= before + tools_view(from@).take(i + 1));
        i = i + 1;
    }
    assert(tools_view(from@).take(from@.len() as int) =~= tools_view(from@));
}

/// The name that clients see of a tool of a server.
pub open spec fn tool_name(server: Seq<char>, tool: Seq<char>) -> Seq<char> {
    server + "_"@ + tool
}

/// The name that clients see of a tool of a server.
pub fn prefixed(server: &str, tool: &str) -> (r: String)
    ensures
        r@ == tool_name(server@, tool@),
{
    let mut r = cat(server, "_");
    r.append(tool);
    r
}

/// Some of the patterns matches `name`.
pub open spec fn any_globs(patterns: Seq<Seq<char>>, name: Seq<char>) -> bool {
    exists|i: int| 0 <= i < patterns.len() && #[trigger] crate::glob::globs(patterns[i], name)
}

fn any_match(patterns: &Vec<String>, name: &str) -> (r: bool)
    ensures
        r == any_globs(crate::text::texts(patterns@), name@),
{
    let mut i: usize = 0;
    while i < patterns.len()
        invariant
            i <= patterns@.len(),
            forall|j: int| 0 <= j < i ==> !crate::glob::globs(#[trigger] patterns@[j]@, name@),
        decreases patterns@.len() - i,
    {
        if glob_match(patterns[i].as_str(), name) {
            assert(crate::glob::globs(crate::text::texts(patterns@)[i as int], name@));
            return true;
        }
        i = i + 1;
    }
    assert forall|j: int| 0 <= j < crate::text::texts(patterns@).len() implies !crate::glob::globs(
        #[trigger] crate::text::texts(patterns@)[j],
        name@,
    ) by {
        assert(!crate::glob::globs(patterns@[j]@, name@));
    }
    false
}

/// The tool passes the filters: it matches some pattern to expose, if there
/// are any, and no pattern to hide.
pub open spec fn exposed(t: ToolView, only: Seq<Seq<char>>, except: Seq<Seq<char>>) -> bool {
    (only.len() == 0 || any_globs(only, t.original_name)) && !any_globs(except, t.original_name)
}

/// The tools that pass the filters, in order.
pub open spec fn exposed_tools(
    tools: Seq<ToolView>,
    only: Seq<Seq<char>>,
    except: Seq<Seq<char>>,
) -> Seq<ToolView>
    decreases tools.len(),
{
    if tools.len() == 0 {
        Seq::empty()
    } else {
        let before = exposed_tools(tools.drop_last(), only, except);
        if exposed(tools.last(), only, except) {
            before.push(tools.last())
        } else {
            before
        }
    }
}

/// The first tool whose original name is `name`.
pub open spec fn tool_called(tools: Seq<ToolView>, name: Seq<char>) -> Option<ToolView>
    decreases tools.len(),
{
    if tools.len() == 0 {
        None
    } else if tools[0].original_name == name {
        Some(tools[0])
    } else {
        tool_called(tools.subrange(1, tools.len() as int), name)
    }
}

/// For each alias of an exposed tool, that tool under the alias.
pub open spec fn alias_tools(
    tools: Seq<ToolView>,
    server: Seq<char>,
    aliases: Seq<(Seq<char>, Seq<char>)>,
) -> Seq<ToolView>
    decreases aliases.len(),
{
    if aliases.len() == 0 {
        Seq::empty()
    } else {
        let before = alias_tools(tools, server, aliases.drop_last());
        match tool_called(tools, aliases.last().1) {
            Some(t) => before.push(
                ToolView { name: tool_name(server, aliases.last().0), ..t },
            ),
            None => before,
        }
    }
}

/// The tools of a server as clients see them: the exposed ones, then their
/// aliases.
pub open spec fn shown_tools(
    tools: Seq<ToolView>,
    server: Seq<char>,
    only: Seq<Seq<char>>,
    except: Seq<Seq<char>>,
    aliases: Seq<(Seq<char>, Seq<char>)>,
) -> Seq<ToolView> {
    let kept = exposed_tools(tools, only, except);
    kept + alias_tools(kept, server, aliases)
}

fn find_called(tools: &Vec<Tool>, name: &str) -> (r: Option<usize>)
    ensures
        r is Some == tool_called(tools_view(tools@), name@) is Some,
        r matches Some(i) ==> i < tools@.len() && tool_called(tools_view(tools@), name@) == Some(
            tools@[i as int]@,
        ),
{
    let wanted: String = name.to_owned();
    let ghost all = tools_view(tools@);
    let n: usize = tools.len();
    let mut i: usize = 0;
    assert(all.subrange(0, n as int) =~= all);
    while i < n
        invariant
            n == tools@.len(),
            all == tools_view(tools@),
            i <= n,
            wanted@ == name@,
            tool_called(all, name@) == tool_called(all.subrange(i as int, n as int), name@),
        decreases n - i,
    {
        if tools[i].original_name == wanted {
            return Some(i);
        }
        assert(all.subrange(i as int, n as int).subrange(1, n - i) =~= all.subrange(
            i + 1,
            n as int,
        ));
        i = i + 1;
    }
    None
}

/// Applies the filters and aliases of a server to its tools.
pub fn apply_tool_filters(tools: &mut Vec<Tool>, server_name: &str, cfg: &ServerConfig)
    ensures
        tools_view(final(tools)@) == shown_tools(
            tools_view(old(tools)@),
            server_name@,
            crate::text::texts(cfg.include_tools@),
            crate::text::texts(cfg.exclude_tools@),
            cfg.tool_aliases.pairs(),
        ),
{
    let ghost only = crate::text::texts(cfg.include_tools@);
    let ghost except = crate::text::texts(cfg.exclude_tools@);
    let ghost all = tools_view(tools@);
    let mut kept: Vec<Tool> = Vec::new();
    let mut i: usize = 0;
    assert(tools_view(kept@) =~= exposed_tools(all.take(0), only, except));
    while i < tools.len()
        invariant
            all == tools_view(tools@),
            only == crate::text::texts(cfg.include_tools@),
            except == crate::text::texts(cfg.exclude_tools@),
            i <= tools@.len(),
            tools_view(kept@) == exposed_tools(all.take(i as int), only, except),
        decreases tools@.len() - i,
    {
        let t: &Tool = &tools[i];
        assert(all.take(i + 1).drop_last() =~= all.take(i as int));
        if (cfg.include_tools.len() == 0 || any_match(
            &cfg.include_tools,
            t.original_name.as_str(),
        )) && !any_match(&cfg.exclude_tools, t.original_name.as_str()) {
            let ghost before = kept@;
            kept.push(t.duplicate());
            assert(tools_view(kept@) =~= tools_view(before).push(t@));
        }
        i = i + 1;
    }
    assert(all.take(all.len() as int) =~= all);
    let mut aliased: Vec<Tool> = Vec::new();
    let n: usize = cfg.tool_aliases.len();
    let mut k: usize = 0;
    let ghost aliases = cfg.tool_aliases.pairs();
    assert(tools_view(aliased@) =~= alias_tools(
        tools_view(kept@),
        server_name@,
        aliases.take(0),
    ));
    while k < n
        invariant
            n == aliases.len(),
            aliases == cfg.tool_aliases.pairs(),
            k <= n,
            tools_view(aliased@) == alias_tools(
                tools_view(kept@),
                server_name@,
                aliases.take(k as int),
            ),
        decreases n - k,
    {
        assert(aliases.take(k + 1).drop_last() =~= aliases.take(k as int));
        match find_called(&kept, cfg.tool_aliases.value_at(k).as_str()) {
            Some(at) => {
                let ghost before = aliased@;
                let mut t = kept[at].duplicate();
                t.name = prefixed(server_name, cfg.tool_aliases.name_at(k).as_str());
                let ghost added = t@;
                aliased.push(t);
                assert(tools_view(aliased@) =~= tools_view(before).push(added));
            },
            None => {},
        }
        k = k + 1;
    }
    assert(aliases.take(n as int) =~= aliases);
    copy_tools_to(&aliased, &mut kept);
    *tools = kept;
}

/// The tool that an item of a `tools/list` result describes; an item without
/// a name describes none.
pub open spec fn listed_tool(item: JsonView, server: Seq<char>) -> Option<ToolView> {
    match crate::json::text_of(crate::json::member_of(item, "name"@)) {
        Some(raw) => Some(
            ToolView {
                name: tool_name(server, raw),
                description: crate::json::text_of(
                    crate::json::member_of(item, "description"@),
                ),
                input_schema: crate::json::member_of(item, "inputSchema"@),
                original_name: raw,
            },
        ),
        None => None,
    }
}

/// The tools that the items describe, in order.
pub open spec fn listed_items(items: Seq<JsonView>, server: Seq<char>) -> Seq<ToolView>
    decreases items.len(),
{
    if items.len() == 0 {
        Seq::empty()
    } else {
        let before = listed_items(items.drop_last(), server);
        match listed_tool(items.last(), server) {
            Some(t) => before.push(t),
            None => before,
        }
    }
}

/// The tools that a `tools/list` result lists.
pub open spec fn listed_tools(result: JsonView, server: Seq<char>) -> Seq<ToolView> {
    match crate::json::member_of(result, "tools"@) {
        Some(JsonView::Array(items)) => listed_items(items, server),
        _ => Seq::empty(),
    }
}

/// Reads the tools from a `tools/list` result.
pub fn tools_from(result: &Json, server: &str) -> (r: Vec<Tool>)
    ensures
        tools_view(r@) == listed_tools(result@, server@),
{
    let mut out: Vec<Tool> = Vec::new();
    let items: &Vec<Json> = match result.get("tools") {
        Some(Json::Array(items)) => items,
        _ => {
            assert(tools_view(out@) =~= Seq::empty());
            return out;
        },
    };
    let ghost all = crate::json::items_view(items@);
    proof {
        crate::json::lemma_items(items@);
    }
    let mut i: usize = 0;
    assert(tools_view(out@) =~= listed_items(all.take(0), server@));
    while i < items.len()
        invariant
            all == crate::json::items_view(items@),
            all.len() == items@.len(),
            forall|k: int| 0 <= k < items@.len() ==> #[trigger] all[k] == items@[k]@,
            i <= items@.len(),
            tools_view(out@) == listed_items(all.take(i as int), server@),
        decreases items@.len() - i,
    {
        assert(all.take(i + 1).drop_last() =~= all.take(i as int));
        assert(all.take(i + 1).last() == all[i as int]);
        let item: &Json = &items[i];
        match item.text_at("name") {
            Some(raw) => {
                let ghost before = out@;
                let schema: Option<Json> = match item.get("inputSchema") {
                    Some(j) => Some(j.duplicate()),
                    None => None,
                };
                let t = Tool {
                    name: prefixed(server, raw.as_str()),
                    description: item.text_at("description"),
                    input_schema: schema,
                    original_name: raw,
                };
                let ghost added = t@;
                out.push(t);
                assert(tools_view(out@) =~= tools_view(before).push(added));
            },
            None => {},
        }
        i = i + 1;
    }
    assert(all.take(all.len() as int) =~= all);
    out
}

// ---------------------------------------------------------------------------
// Launching
// ---------------------------------------------------------------------------

/// How to start a backend process.
pub struct Launch {
    /// Whether it runs in a Docker container.
    pub docker: bool,
    /// The command, for a process on the host.
    pub program: String,
    /// The arguments, expanded.
    pub args: Vec<String>,
    /// The environment on top of the process environment.
    pub env: NameMap<String>,
}

/// The server runs in a Docker container.
pub open spec fn uses_docker(srv: crate::config::ServerView) -> bool {
    srv.install is Some && srv.runtime == Runtime::Docker
}

/// Whether the server runs in a Docker container.
pub fn runs_in_docker(cfg: &ServerConfig) -> (r: bool)
    ensures
        r == uses_docker(cfg@),
{
    cfg.install.is_some() && matches!(cfg.runtime, Runtime::Docker)
}

/// Every argument is expanded by at most `limit` replacements.
pub open spec fn args_settle_by(
    args: Seq<Seq<char>>,
    overrides: crate::expand::Texts,
    process_env: crate::expand::Texts,
    limit: nat,
) -> bool {
    forall|i: int|
        0 <= i < args.len() ==> crate::expand::settles_by(
            #[trigger] args[i],
            crate::config::var_marks(),
            overrides,
            process_env,
            limit,
        )
}

/// The arguments, each expanded.
pub open spec fn expanded_args(
    args: Seq<Seq<char>>,
    overrides: crate::expand::Texts,
    process_env: crate::expand::Texts,
) -> Seq<Seq<char>> {
    Seq::new(
        args.len(),
        |i: int|
            crate::expand::expansion(
                args[i],
                crate::config::var_marks(),
                overrides,
                process_env,
            ),
    )
}

/// Expands each argument; nothing if one needs more than `limit` replacements.
pub fn expand_args(
    args: &Vec<String>,
    overrides: &NameMap<String>,
    process_env: &NameMap<String>,
    limit: u64,
) -> (r: Option<Vec<String>>)
    ensures
        r is Some == args_settle_by(
            crate::text::texts(args@),
            overrides@,
            process_env@,
            limit as nat,
        ),
        r matches Some(v) ==> crate::text::texts(v@) == expanded_args(
            crate::text::texts(args@),
            overrides@,
            process_env@,
        ),
{
    let ghost all = crate::text::texts(args@);
    let mut out: Vec<String> = Vec::new();
    let mut i: usize = 0;
    while i < args.len()
        invariant
            all == crate::text::texts(args@),
            i <= args@.len(),
            out@.len() == i,
            forall|k: int|
                0 <= k < i ==> crate::expand::settles_by(
                    #[trigger] all[k],
                    crate::config::var_marks(),
                    overrides@,
                    process_env@,
                    limit as nat,
                ) && out@[k]@ == crate::expand::expansion(
                    all[k],
                    crate::config::var_marks(),
                    overrides@,
                    process_env@,
                ),
        decreases args@.len() - i,
    {
        match expand_env_within(args[i].as_str(), overrides, process_env, limit) {
            Some(a) => {
                out.push(a);
            },
            None => {
                assert(!crate::expand::settles_by(
                    all[i as int],
                    crate::config::var_marks(),
                    overrides@,
                    process_env@,
                    limit as nat,
                ));
                return None;
            },
        }
        i = i + 1;
    }
    assert(crate::text::texts(out@) =~= expanded_args(all, overrides@, process_env@));
    Some(out)
}

/// A launch is that of a server for a client with the given overrides.
pub open spec fn starts_server(
    l: Launch,
    srv: crate::config::ServerView,
    overrides: crate::expand::Texts,
    process_env: crate::expand::Texts,
) -> bool {
    &&& l.docker == uses_docker(srv)
    &&& l.program@ == srv.command
    &&& crate::text::texts(l.args@) == expanded_args(srv.args, overrides, process_env)
    &&& l.env@ == crate::config::resolved_env(srv.env, overrides, process_env)
}

/// How to start the backend of a server for a client with the given overrides.
/// Nothing if an argument or a variable needs more than `limit` replacements.
pub fn launch(
    cfg: &ServerConfig,
    extra_env: &NameMap<String>,
    process_env: &NameMap<String>,
    limit: u64,
) -> (r: Option<Launch>)
    ensures
        r is Some == (args_settle_by(cfg@.args, extra_env@, process_env@, limit as nat)
            && crate::config::env_settles_by(cfg@.env, extra_env@, process_env@, limit as nat)),
        r matches Some(l) ==> starts_server(l, cfg@, extra_env@, process_env@),
{
    match expand_args(&cfg.args, extra_env, process_env, limit) {
        Some(args) => match resolve_env(&cfg.env, extra_env, process_env, limit) {
            Some(env) => Some(
                Launch { docker: runs_in_docker(cfg), program: cfg.command.clone(), args, env },
            ),
            None => None,
        },
        None => None,
    }
}

/// `[name] ` before `rest`.
pub open spec fn tagged(name: Seq<char>, rest: Seq<char>) -> Seq<char> {
    "["@ + name + "] "@ + rest
}

fn tag(name: &str, rest: &str) -> (r: String)
    ensures
        r@ == tagged(name@, rest@),
{
    let mut r = cat("[", name);
    r.append("] ");
    r.append(rest);
    r
}

/// The message when the process could not be spawned, for the reason `e`.
pub open spec fn spawn_failure(name: Seq<char>, command: Seq<char>, e: Seq<char>) -> Seq<char> {
    "failed to spawn '"@ + name + "': command '"@ + command + "' — "@ + e + "\nhint: is '"@
        + command + "' installed and on your PATH?"@
}

/// The message when the process could not be spawned, for the reason `e`.
pub fn spawn_error(name: &str, command: &str, e: &str) -> (r: String)
    ensures
        r@ == spawn_failure(name@, command@, e@),
{
    let mut r = cat("failed to spawn '", name);
    r.append("': command '");
    r.append(command);
    r.append("' — ");
    r.append(e);
    r.append("\nhint: is '");
    r.append(command);
    r.append("' installed and on your PATH?");
    r
}

/// The message when a stream of the process could not be captured.
pub fn capture_error(name: &str, stream: &str) -> (r: String)
    ensures
        r@ == tagged(name@, "failed to capture "@ + stream@),
{
    let rest = cat("failed to capture ", stream);
    tag(name, rest.as_str())
}

// ---------------------------------------------------------------------------
// The backend
// ---------------------------------------------------------------------------

/// What is known of a running server process.
pub struct Backend {
    /// The name of the server.
    pub name: String,
    /// The tools as clients see them.
    pub tools: Vec<Tool>,
    /// Whether the handshake has completed.
    pub ready: bool,
    /// How often the process has been restarted.
    pub restart_count: u32,
    /// Whether the process has exited by itself.
    pub crashed: bool,
    /// The id of the next request.
    pub seq: u64,
    /// The ids of the requests that await a response.
    pub pending: Vec<u64>,
    /// Whether the input of the process is open.
    pub stdin_open: bool,
    /// The timeout of a call.
    pub timeout_secs: u64,
    /// The server's config when it was started.
    pub cfg_snapshot: ServerConfig,
    /// The client's overrides when it was started.
    pub extra_env_snapshot: NameMap<String>,
}

/// No id occurs twice.
pub open spec fn distinct_ids(s: Seq<u64>) -> bool {
    forall|i: int, j: int|
        #![trigger s[i], s[j]]
        0 <= i < s.len() && 0 <= j < s.len() && s[i] == s[j] ==> i == j
}

/// `s` without `id`.
pub open spec fn without_id(s: Seq<u64>, id: u64) -> Seq<u64>
    decreases s.len(),
{
    if s.len() == 0 {
        s
    } else if s.last() == id {
        without_id(s.drop_last(), id)
    } else {
        without_id(s.drop_last(), id).push(s.last())
    }
}

/// Taking an id out leaves exactly the others.
pub proof fn lemma_without_id(s: Seq<u64>, id: u64)
    ensures
        forall|x: u64| #[trigger] without_id(s, id).contains(x) == (s.contains(x) && x != id),
        distinct_ids(s) ==> distinct_ids(without_id(s, id)),
        !s.contains(id) ==> without_id(s, id) == s,
        without_id(s, id).len() <= s.len(),
    decreases s.len(),
{
    if s.len() > 0 {
        let t = s.drop_last();
        lemma_without_id(t, id);
        let w = without_id(t, id);
        assert forall|x: u64| #[trigger] without_id(s, id).contains(x) == (s.contains(x) && x
            != id) by {
            assert(s =~= t.push(s.last()));
            assert(s.contains(x) == (t.contains(x) || x == s.last())) by {
                if t.contains(x) {
                    let k = choose|k: int| 0 <= k < t.len() && t[k] == x;
                    assert(s[k] == x);
                }
                assert(s[s.len() - 1] == s.last());
                if s.contains(x) {
                    let k = choose|k: int| 0 <= k < s.len() && s[k] == x;
                    if k < t.len() {
                        assert(t[k] == x);
                    }
                }
            }
            if s.last() != id {
                assert(w.push(s.last()).contains(x) == (w.contains(x) || x == s.last())) by {
                    let ww = w.push(s.last());
                    if w.contains(x) {
                        let k = choose|k: int| 0 <= k < w.len() && w[k] == x;
                        assert(ww[k] == x);
                    }
                    assert(ww[w.len() as int] == s.last());
                    if ww.contains(x) {
                        let k = choose|k: int| 0 <= k < ww.len() && ww[k] == x;
                        if k < w.len() {
                            assert(w[k] == x);
                        }
                    }
                }
            }
        }
        if distinct_ids(s) {
            assert forall|i: int, j: int|
                0 <= i < t.len() && 0 <= j < t.len() && t[i] == t[j] implies i == j by {
                assert(s[i] == s[j]);
            }
            if s.last() != id {
                let ww = w.push(s.last());
                assert forall|i: int, j: int|
                    0 <= i < ww.len() && 0 <= j < ww.len() && ww[i] == ww[j] implies i == j by {
                    if i < w.len() && j < w.len() {
                        assert(w[i] == w[j]);
                    } else if i < w.len() {
                        assert(w.contains(w[i]));
                        assert(t.contains(s.last()));
                        let k = choose|k: int| 0 <= k < t.len() && t[k] == s.last();
                        assert(s[k] == s[s.len() - 1]);
                    } else if j < w.len() {
                        assert(w.contains(w[j]));
                        assert(t.contains(s.last()));
                        let k = choose|k: int| 0 <= k < t.len() && t[k] == s.last();
                        assert(s[k] == s[s.len() - 1]);
                    }
                }
            }
        }
        if !s.contains(id) {
            assert(s[s.len() - 1] != id);
            assert forall|i: int| 0 <= i < t.len() implies t[i] != id by {
                assert(s[i] != id);
            }
            assert(s =~= t.push(s.last()));
        }
    }
}

fn contains_id(ids: &Vec<u64>, id: u64) -> (r: bool)
    ensures
        r == ids@.contains(id),
{
    let mut i: usize = 0;
    while i < ids.len()
        invariant
            i <= ids@.len(),
            forall|j: int| 0 <= j < i ==> ids@[j] != id,
        decreases ids@.len() - i,
    {
        if ids[i] == id {
            assert(ids@[i as int] == id);
            return true;
        }
        i = i + 1;
    }
    false
}

fn drop_id(ids: &Vec<u64>, id: u64) -> (r: Vec<u64>)
    ensures
        r@ == without_id(ids@, id),
{
    let mut out: Vec<u64> = Vec::new();
    let mut i: usize = 0;
    assert(ids@.take(0) =~= Seq::empty());
    while i < ids.len()
        invariant
            i <= ids@.len(),
            out@ == without_id(ids@.take(i as int), id),
        decreases ids@.len() - i,
    {
        assert(ids@.take(i + 1).drop_last() =~= ids@.take(i as int));
        if ids[i] != id {
            out.push(ids[i]);
        }
        i = i + 1;
    }
    assert(ids@.take(ids@.len() as int) =~= ids@);
    out
}

/// The parameters of the `initialize` request.
pub open spec fn initialize_params() -> JsonView {
    JsonView::Object(
        no_members().insert("protocolVersion"@, js("2024-11-05"@)).insert(
            "capabilities"@,
            JsonView::Object(no_members()),
        ).insert(
            "clientInfo"@,
            JsonView::Object(
                no_members().insert("name"@, js("mcp-proxy"@)).insert("version"@, js("0.1.0"@)),
            ),
        ),
    )
}

/// The parameters of the `initialize` request.
pub fn initialize_request() -> (r: Json)
    ensures
        r@ == initialize_params(),
{
    let mut info: Vec<(String, Json)> = Vec::new();
    put(&mut info, "name", text("mcp-proxy"));
    put(&mut info, "version", text(PROGRAM_VERSION));
    let mut members: Vec<(String, Json)> = Vec::new();
    put(&mut members, "protocolVersion", text(MCP_PROTOCOL_VERSION));
    put(&mut members, "capabilities", Json::Object(Vec::new()));
    put(&mut members, "clientInfo", Json::Object(info));
    Json::Object(members)
}

/// The parameters of a `tools/call` request.
pub open spec fn call_params(tool: Seq<char>, args: JsonView) -> JsonView {
    JsonView::Object(no_members().insert("name"@, js(tool)).insert("arguments"@, args))
}

/// The parameters of a `tools/call` request.
pub fn call_request(tool: &str, args: Json) -> (r: Json)
    ensures
        r@ == call_params(tool@, args@),
{
    let mut members: Vec<(String, Json)> = Vec::new();
    put(&mut members, "name", text(tool));
    put(&mut members, "arguments", args);
    Json::Object(members)
}

/// What a response says: its error if it has one, else its result, else null.
pub open spec fn answer_of(
    result: Option<JsonView>,
    error: Option<Seq<char>>,
) -> Result<JsonView, Seq<char>> {
    match error {
        Some(m) => Err(m),
        None => match result {
            Some(v) => Ok(v),
            None => Ok(JsonView::Null),
        },
    }
}

/// What an answer stands for.
pub open spec fn answer_view(r: Result<Json, String>) -> Result<JsonView, Seq<char>> {
    match r {
        Ok(v) => Ok(v@),
        Err(m) => Err(m@),
    }
}

/// The message of an optional error.
pub open spec fn wire_message(e: Option<crate::jsonrpc::WireError>) -> Option<Seq<char>> {
    match e {
        Some(e) => Some(e.message@),
        None => None,
    }
}

/// How often a server may be restarted.
pub open spec fn max_restarts(srv: crate::config::ServerView) -> u32 {
    match srv.max_restarts {
        Some(m) => m,
        None => 5,
    }
}

/// The seconds to wait before the restart after `count` restarts: 1, 2, 4, 8,
/// and 16 from then on.
pub open spec fn backoff_secs(count: int) -> int {
    if count <= 0 {
        1
    } else if count == 1 {
        2
    } else if count == 2 {
        4
    } else if count == 3 {
        8
    } else {
        16
    }
}

/// The seconds to wait before a restart.
pub fn restart_delay(count: u32) -> (r: u64)
    ensures
        r == backoff_secs(count as int),
{
    match count {
        0 => 1,
        1 => 2,
        2 => 4,
        3 => 8,
        _ => 16,
    }
}

/// The timeout of a server's calls.
pub open spec fn timeout_of(srv: crate::config::ServerView) -> u64 {
    match srv.timeout_secs {
        Some(t) => t,
        None => 30,
    }
}

/// What a call begins with.
#[derive(Debug)]
pub enum CallStep {
    /// The process is restarted after so many seconds, and the call comes after
    /// that.
    Restart(u64),
    /// The call fails.
    Refused(String),
    /// The line of the request `id` is written.
    Send { id: u64, line: String },
}

/// A stage of the handshake with a process that has just been spawned.
#[derive(Debug, Clone, Copy, PartialEq, Eq, Structural)]
pub enum Stage {
    /// The `initialize` request is answered.
    Initialize,
    /// The notification that it was is written.
    Notify,
    /// The `tools/list` request is answered.
    List,
}

impl Stage {
    /// The method of the stage's message.
    pub open spec fn method_text(self) -> Seq<char> {
        match self {
            Stage::Initialize => "initialize"@,
            Stage::Notify => "notifications/initialized"@,
            Stage::List => "tools/list"@,
        }
    }

    /// The method of the stage's message.
    pub fn method(self) -> (r: &'static str)
        ensures
            r@ == self.method_text(),
    {
        match self {
            Stage::Initialize => "initialize",
            Stage::Notify => "notifications/initialized",
            Stage::List => "tools/list",
        }
    }

    /// The parameters of the stage's message.
    pub fn params(self) -> (r: Json)
        ensures
            r@ == (if self == Stage::Initialize {
                initialize_params()
            } else {
                JsonView::Object(no_members())
            }),
    {
        match self {
            Stage::Initialize => initialize_request(),
            Stage::Notify => Json::Object(Vec::new()),
            Stage::List => Json::Object(Vec::new()),
        }
    }
}

/// What follows a stage of the handshake.
#[derive(Debug)]
pub enum Handshake {
    /// The next stage.
    Next(Stage),
    /// The handshake has succeeded.
    Done,
    /// The handshake has failed.
    Failed(String),
}

/// The message when the `initialize` request of a backend failed for the
/// reason `e`.
pub open spec fn handshake_error(b: Backend, e: Seq<char>) -> Seq<char> {
    tagged(
        b.name@,
        "MCP handshake failed: "@ + e + "\nhint: is '"@ + b.cfg_snapshot.command@
            + "' a valid MCP server?"@,
    )
}

/// The backend after its handshake: it is ready, and has the listed tools, or
/// those that it had if the list could not be had.
pub open spec fn shaken_hands(before: Backend, after: Backend, listing: Option<JsonView>) -> bool {
    &&& after.ready
    &&& after == (Backend { tools: after.tools, ready: true, ..before })
    &&& tools_view(after.tools@) == (match listing {
        Some(v) => listed_tools(v, before.name@),
        None => tools_view(before.tools@),
    })
}

/// What follows a stage with the given outcome, and what it does to the
/// backend. A failed `initialize` request or notification ends the handshake; a
/// failed `tools/list` request does not.
pub open spec fn stage_ends(
    r: Handshake,
    stage: Stage,
    outcome: Result<JsonView, Seq<char>>,
    before: Backend,
    after: Backend,
) -> bool {
    match stage {
        Stage::Initialize => after == before && match outcome {
            Ok(_) => r == Handshake::Next(Stage::Notify),
            Err(e) => r matches Handshake::Failed(m) && m@ == handshake_error(before, e),
        },
        Stage::Notify => after == before && match outcome {
            Ok(_) => r == Handshake::Next(Stage::List),
            Err(e) => r matches Handshake::Failed(m) && m@ == e,
        },
        Stage::List => r is Done && shaken_hands(
            before,
            after,
            match outcome {
                Ok(v) => Some(v),
                Err(_) => None,
            },
        ),
    }
}

/// A request begins: it gets the next id and is open until it is answered. A
/// process that has crashed, or whose input is closed, gets none.
pub open spec fn request_begins(
    r: Result<(u64, String), String>,
    before: Backend,
    after: Backend,
    method: Seq<char>,
    params: JsonView,
) -> bool {
    &&& after.same_setup(&before)
    &&& after.tools == before.tools
    &&& after.ready == before.ready
    &&& after.restart_count == before.restart_count
    &&& after.crashed == before.crashed
    &&& after.stdin_open == before.stdin_open
    &&& r is Ok == (!before.crashed && before.stdin_open)
    &&& before.crashed ==> (r matches Err(e) && e@ == tagged(
        before.name@,
        "backend process has crashed — restart pending"@,
    ) && after.pending@ == before.pending@ && after.seq == before.seq)
    &&& !before.crashed ==> after.seq == before.seq + 1
    &&& !before.crashed && !before.stdin_open ==> (r matches Err(e) && e@ == tagged(
        before.name@,
        "stdin closed — backend may have crashed"@,
    ) && after.pending@ == before.pending@)
    &&& r matches Ok((id, line)) ==> id == before.seq && line@ == crate::json::compact_text(
        crate::jsonrpc::request_json("2.0"@, id as int, method, params),
    ) && crate::json::on_one_line(line@) && after.pending@ == before.pending@.push(id)
}

/// A response comes: it answers the open request of its id, if there is one.
pub open spec fn response_comes(
    r: Option<(u64, Result<Json, String>)>,
    resp: Response,
    before: Backend,
    after: Backend,
) -> bool {
    &&& after == (Backend { pending: after.pending, ..before })
    &&& r is Some == (resp.id matches Some(id) && before.pending@.contains(id))
    &&& r is None ==> after.pending@ == before.pending@
    &&& r matches Some((id, answer)) ==> resp.id == Some(id) && after.pending@ == without_id(
        before.pending@,
        id,
    ) && answer_view(answer) == answer_of(opt_json(resp.result), wire_message(resp.error))
}

/// The process exits: all open requests fail.
pub open spec fn process_exits(r: (Vec<u64>, String), before: Backend, after: Backend) -> bool {
    &&& after.crashed
    &&& after.pending@.len() == 0
    &&& after == (Backend { pending: after.pending, crashed: true, ..before })
    &&& r.0@ == before.pending@
    &&& r.1@ == tagged(before.name@, "backend process exited"@)
}

/// A stage of bringing a backend up has ended: as in the handshake, but at its
/// end the tools are as clients see them.
pub open spec fn brought_up(
    r: Handshake,
    stage: Stage,
    outcome: Result<JsonView, Seq<char>>,
    before: Backend,
    after: Backend,
) -> bool {
    &&& stage != Stage::List ==> stage_ends(r, stage, outcome, before, after)
    &&& stage == Stage::List ==> r is Done && after == (Backend {
        tools: after.tools,
        ready: true,
        ..before
    }) && tools_view(after.tools@) == tools_shown(
        before,
        match outcome {
            Ok(v) => listed_tools(v, before.name@),
            Err(_) => tools_view(before.tools@),
        },
    )
}

/// Whether a restart is due: after a wait, if there are restarts left.
pub open spec fn restart_is_due(r: Result<u64, String>, b: Backend) -> bool {
    &&& r is Ok == (b.restart_count < max_restarts(b.cfg_snapshot@))
    &&& r matches Ok(secs) ==> secs == backoff_secs(b.restart_count as int)
    &&& r matches Err(e) ==> e@ == tagged(
        b.name@,
        "max restarts ("@ + crate::text::decimal(max_restarts(b.cfg_snapshot@) as int)
            + ") exceeded, giving up"@,
    )
}

/// A call of a tool begins: with a restart if the process has crashed, else with
/// a request.
pub open spec fn tool_call_begins(
    r: CallStep,
    before: Backend,
    after: Backend,
    tool: Seq<char>,
    args: JsonView,
) -> bool {
    &&& after.same_setup(&before)
    &&& after.tools == before.tools
    &&& after.ready == before.ready
    &&& after.restart_count == before.restart_count
    &&& after.crashed == before.crashed
    &&& after.stdin_open == before.stdin_open
    &&& match r {
        CallStep::Restart(secs) => {
            &&& before.crashed && before.cfg_snapshot.auto_restart
            &&& before.restart_count < max_restarts(before.cfg_snapshot@)
            &&& secs == backoff_secs(before.restart_count as int)
            &&& after.pending@ == before.pending@
            &&& after.seq == before.seq
        },
        CallStep::Refused(e) => {
            &&& after.pending@ == before.pending@
            &&& before.crashed || !before.stdin_open
            &&& e@ == tagged(
                before.name@,
                if !before.crashed {
                    "stdin closed — backend may have crashed"@
                } else if before.cfg_snapshot.auto_restart {
                    "max restarts ("@ + crate::text::decimal(
                        max_restarts(before.cfg_snapshot@) as int,
                    ) + ") exceeded, giving up"@
                } else {
                    "backend process has crashed — restart pending"@
                },
            )
            &&& before.crashed && before.cfg_snapshot.auto_restart ==> before.restart_count
                >= max_restarts(before.cfg_snapshot@)
        },
        CallStep::Send { id, line } => {
            &&& !before.crashed && before.stdin_open
            &&& id == before.seq
            &&& line@ == crate::json::compact_text(
                crate::jsonrpc::request_json(
                    "2.0"@,
                    id as int,
                    "tools/call"@,
                    call_params(tool, args),
                ),
            )
            &&& crate::json::on_one_line(line@)
            &&& after.pending@ == before.pending@.push(id)
            &&& after.seq == before.seq + 1
        },
    }
}

/// A restart begins: it is counted, and the process is no longer there.
pub open spec fn restart_begins(before: Backend, after: Backend) -> bool {
    after == (Backend {
        restart_count: (before.restart_count + 1) as u32,
        crashed: false,
        ready: false,
        stdin_open: false,
        ..before
    })
}

/// A new process runs: its input is open and no request is open with it.
pub open spec fn process_is_new(before: Backend, after: Backend) -> bool {
    &&& after.stdin_open
    &&& after.pending@.len() == 0
    &&& after == (Backend { pending: after.pending, stdin_open: true, ..before })
}

/// The given tools of a backend as clients see them, after its filters and
/// aliases.
pub open spec fn tools_shown(b: Backend, tools: Seq<ToolView>) -> Seq<ToolView> {
    shown_tools(
        tools,
        b.name@,
        b.cfg_snapshot@.include_tools,
        b.cfg_snapshot@.exclude_tools,
        b.cfg_snapshot.tool_aliases.pairs(),
    )
}

impl Backend {
    /// Every request that awaits a response has an id of its own, and it was
    /// given out before the next one.
    pub open spec fn wf(&self) -> bool {
        &&& distinct_ids(self.pending@)
        &&& forall|i: int| 0 <= i < self.pending@.len() ==> #[trigger] self.pending@[i] < self.seq
    }

    /// All but the fields that calls change.
    pub open spec fn same_setup(&self, other: &Backend) -> bool {
        &&& self.name@ == other.name@
        &&& self.timeout_secs == other.timeout_secs
        &&& self.cfg_snapshot == other.cfg_snapshot
        &&& self.extra_env_snapshot == other.extra_env_snapshot
    }

    /// The backend of a process that has just been spawned.
    pub fn start(name: &str, cfg: &ServerConfig, extra_env: &NameMap<String>) -> (r: Self)
        ensures
            r.wf(),
            r.name@ == name@,
            r.tools@.len() == 0,
            !r.ready,
            r.restart_count == 0,
            !r.crashed,
            r.seq == 1,
            r.pending@.len() == 0,
            r.stdin_open,
            r.timeout_secs == timeout_of(cfg@),
            r.cfg_snapshot@ == cfg@,
            r.cfg_snapshot.tool_aliases.pairs() == cfg.tool_aliases.pairs(),
            r.extra_env_snapshot@ == extra_env@,
    {
        let timeout_secs: u64 = match cfg.timeout_secs {
            Some(t) => t,
            None => DEFAULT_TIMEOUT_SECS,
        };
        Backend {
            name: name.to_owned(),
            tools: Vec::new(),
            ready: false,
            restart_count: 0,
            crashed: false,
            seq: 1,
            pending: Vec::new(),
            stdin_open: true,
            timeout_secs,
            cfg_snapshot: cfg.duplicate(),
            extra_env_snapshot: extra_env.duplicate(),
        }
    }

    /// Whether the process has exited by itself.
    pub fn has_crashed(&self) -> (r: bool)
        ensures
            r == self.crashed,
    {
        self.crashed
    }

    /// Begins a request: its id and the line to write, or why there is none.
    /// A request that cannot be written awaits no response.
    pub fn begin_rpc(&mut self, method: &str, params: Json) -> (r: Result<(u64, String), String>)
        requires
            old(self).wf(),
            old(self).seq < u64::MAX,
        ensures
            final(self).wf(),
            request_begins(r, *old(self), *final(self), method@, params@),
    {
        if self.crashed {
            return Err(
                tag(self.name.as_str(), "backend process has crashed — restart pending"),
            );
        }
        let id: u64 = self.seq;
        self.seq = id + 1;
        let request = Request::new(id, method, params).to_json();
        let line = request.to_text();
        if !self.stdin_open {
            return Err(tag(self.name.as_str(), "stdin closed — backend may have crashed"));
        }
        self.pending.push(id);
        Ok((id, line))
    }

    /// The line of request `id` could not be written: it awaits no response.
    pub fn write_failed(&mut self, id: u64)
        requires
            old(self).wf(),
        ensures
            final(self).wf(),
            final(self).pending@ == without_id(old(self).pending@, id),
            *final(self) == (Backend { pending: final(self).pending, ..*old(self) }),
    {
        proof {
            lemma_forget(self.pending@, id, self.seq);
        }
        self.pending = drop_id(&self.pending, id);
    }

    /// The response to request `id` did not come in time.
    pub fn timed_out(&mut self, id: u64, method: &str) -> (r: String)
        requires
            old(self).wf(),
        ensures
            final(self).wf(),
            final(self).pending@ == without_id(old(self).pending@, id),
            *final(self) == (Backend { pending: final(self).pending, ..*old(self) }),
            r@ == tagged(
                old(self).name@,
                method@ + " timed out after "@ + crate::text::decimal(
                    old(self).timeout_secs as int,
                ) + "s"@,
            ),
    {
        proof {
            lemma_forget(self.pending@, id, self.seq);
        }
        self.pending = drop_id(&self.pending, id);
        let mut rest = cat(method, " timed out after ");
        let secs = decimal_of(self.timeout_secs);
        rest.append(secs.as_str());
        rest.append("s");
        tag(self.name.as_str(), rest.as_str())
    }

    /// The message when a response can no longer come.
    pub fn channel_dropped(&self) -> (r: String)
        ensures
            r@ == tagged(
                self.name@,
                "response channel dropped — backend may have crashed"@,
            ),
    {
        tag(self.name.as_str(), "response channel dropped — backend may have crashed")
    }

    /// The line of a notification, if the input of the process is open.
    pub fn begin_notify(&self, method: &str, params: Json) -> (r: Option<String>)
        ensures
            r is Some == self.stdin_open,
            r matches Some(line) ==> line@ == crate::json::compact_text(
                crate::jsonrpc::notification_json("2.0"@, method@, params@),
            ) && crate::json::on_one_line(line@),
    {
        if self.stdin_open {
            let notification = Notification::new(method, params).to_json();
            Some(notification.to_text())
        } else {
            None
        }
    }

    /// Takes a response from the process: which request it answers, and with
    /// what. A response without an id, or to no pending request, is ignored.
    pub fn on_response(&mut self, resp: Response) -> (r: Option<(u64, Result<Json, String>)>)
        requires
            old(self).wf(),
        ensures
            final(self).wf(),
            response_comes(r, resp, *old(self), *final(self)),
    {
        let id: u64 = match resp.id {
            Some(id) => id,
            None => {
                return None;
            },
        };
        if !contains_id(&self.pending, id) {
            return None;
        }
        proof {
            lemma_forget(self.pending@, id, self.seq);
        }
        self.pending = drop_id(&self.pending, id);
        let answer: Result<Json, String> = match resp.error {
            Some(e) => Err(e.message),
            None => match resp.result {
                Some(v) => Ok(v),
                None => Ok(Json::Null),
            },
        };
        Some((id, answer))
    }

    /// The output of the process closed: it has crashed, and every pending
    /// request fails at once. Returns the requests that fail, and the message.
    pub fn on_exit(&mut self) -> (r: (Vec<u64>, String))
        ensures
            final(self).wf(),
            process_exits(r, *old(self), *final(self)),
    {
        self.crashed = true;
        let mut failed: Vec<u64> = Vec::new();
        std::mem::swap(&mut failed, &mut self.pending);
        (failed, tag(self.name.as_str(), "backend process exited"))
    }

    /// The message when the `initialize` request failed for the reason `e`.
    fn handshake_failed(&self, e: &str) -> (r: String)
        ensures
            r@ == handshake_error(*self, e@),
    {
        let mut rest = cat("MCP handshake failed: ", e);
        rest.append("\nhint: is '");
        rest.append(self.cfg_snapshot.command.as_str());
        rest.append("' a valid MCP server?");
        tag(self.name.as_str(), rest.as_str())
    }

    /// The handshake is done: takes the tools from the `tools/list` result, or
    /// keeps those it had if there is none.
    fn handshake_done(&mut self, listing: Option<&Json>)
        ensures
            shaken_hands(
                *old(self),
                *final(self),
                match listing {
                    Some(v) => Some(v@),
                    None => None,
                },
            ),
    {
        match listing {
            Some(v) => {
                self.tools = tools_from(v, self.name.as_str());
            },
            None => {},
        }
        self.ready = true;
    }

    /// A stage of the handshake has ended: what follows.
    pub fn handshake(&mut self, stage: Stage, outcome: &Result<Json, String>) -> (r: Handshake)
        ensures
            stage_ends(r, stage, answer_view(*outcome), *old(self), *final(self)),
    {
        match stage {
            Stage::Initialize => match outcome {
                Ok(_) => Handshake::Next(Stage::Notify),
                Err(e) => Handshake::Failed(self.handshake_failed(e.as_str())),
            },
            Stage::Notify => match outcome {
                Ok(_) => Handshake::Next(Stage::List),
                Err(e) => Handshake::Failed(e.clone()),
            },
            Stage::List => {
                match outcome {
                    Ok(v) => {
                        self.handshake_done(Some(v));
                    },
                    Err(_) => {
                        self.handshake_done(None);
                    },
                }
                Handshake::Done
            },
        }
    }

    /// Applies the filters and aliases of the config to the tools.
    pub fn apply_tool_filters(&mut self)
        ensures
            *final(self) == (Backend { tools: final(self).tools, ..*old(self) }),
            tools_view(final(self).tools@) == tools_shown(
                *old(self),
                tools_view(old(self).tools@),
            ),
    {
        let mut tools: Vec<Tool> = Vec::new();
        std::mem::swap(&mut tools, &mut self.tools);
        apply_tool_filters(&mut tools, self.name.as_str(), &self.cfg_snapshot);
        self.tools = tools;
    }

    /// A stage of the handshake has ended: what follows. Once the handshake has
    /// succeeded, the tools are as clients see them.
    pub fn bring_up(&mut self, stage: Stage, outcome: &Result<Json, String>) -> (r: Handshake)
        ensures
            brought_up(r, stage, answer_view(*outcome), *old(self), *final(self)),
    {
        let r = self.handshake(stage, outcome);
        match r {
            Handshake::Done => {
                self.apply_tool_filters();
            },
            _ => {},
        }
        r
    }

    /// Whether a call has to restart the process first.
    pub fn needs_restart(&self) -> (r: bool)
        ensures
            r == (self.crashed && self.cfg_snapshot.auto_restart),
    {
        self.crashed && self.cfg_snapshot.auto_restart
    }

    /// The seconds to wait before the next restart, or why there is none: a
    /// backend is restarted only so often.
    pub fn try_restart(&self) -> (r: Result<u64, String>)
        ensures
            restart_is_due(r, *self),
    {
        let max: u32 = match self.cfg_snapshot.max_restarts {
            Some(m) => m,
            None => DEFAULT_MAX_RESTARTS,
        };
        if self.restart_count >= max {
            let digits = decimal_of(max as u64);
            let mut rest = cat("max restarts (", digits.as_str());
            rest.append(") exceeded, giving up");
            return Err(tag(self.name.as_str(), rest.as_str()));
        }
        Ok(restart_delay(self.restart_count))
    }

    /// Begins a call of the tool that the process knows by `original_name`. If
    /// the process has crashed and may be restarted, that comes first.
    pub fn call_tool(&mut self, original_name: &str, args: &Json) -> (r: CallStep)
        requires
            old(self).wf(),
            old(self).seq < u64::MAX,
        ensures
            final(self).wf(),
            tool_call_begins(r, *old(self), *final(self), original_name@, args@),
    {
        if self.needs_restart() {
            return match self.try_restart() {
                Ok(secs) => CallStep::Restart(secs),
                Err(e) => CallStep::Refused(e),
            };
        }
        match self.begin_rpc("tools/call", call_request(original_name, args.duplicate())) {
            Ok((id, line)) => CallStep::Send { id, line },
            Err(e) => CallStep::Refused(e),
        }
    }

    /// The wait is over: the old process is killed and a new one is due.
    pub fn begin_restart(&mut self)
        requires
            old(self).restart_count < max_restarts(old(self).cfg_snapshot@),
        ensures
            final(self).restart_count <= max_restarts(final(self).cfg_snapshot@),
            restart_begins(*old(self), *final(self)),
    {
        self.kill();
        self.crashed = false;
        self.ready = false;
        self.restart_count = self.restart_count + 1;
    }

    /// The new process has been spawned: no request is pending with it.
    pub fn respawned(&mut self)
        ensures
            final(self).wf(),
            process_is_new(*old(self), *final(self)),
    {
        self.pending = Vec::new();
        self.stdin_open = true;
    }

    /// Closes the input of the process, so that it can exit by itself; whoever
    /// runs it then kills it.
    pub fn kill(&mut self)
        ensures
            *final(self) == (Backend { stdin_open: false, ..*old(self) }),
    {
        self.stdin_open = false;
    }

    /// After the grace period: whether the process has to be killed.
    pub fn kill_and_wait(&mut self, exited_in_time: bool) -> (r: bool)
        ensures
            *final(self) == (Backend { stdin_open: false, ..*old(self) }),
            r == !exited_in_time,
    {
        self.kill();
        !exited_in_time
    }
}

proof fn lemma_forget(pending: Seq<u64>, id: u64, seq: u64)
    requires
        distinct_ids(pending),
        forall|i: int| 0 <= i < pending.len() ==> #[trigger] pending[i] < seq,
    ensures
        distinct_ids(without_id(pending, id)),
        forall|i: int|
            0 <= i < without_id(pending, id).len() ==> #[trigger] without_id(pending, id)[i] < seq,
{
    lemma_without_id(pending, id);
    let w = without_id(pending, id);
    assert forall|i: int| 0 <= i < w.len() implies #[trigger] w[i] < seq by {
        assert(w.contains(w[i]));
        assert(pending.contains(w[i]));
    }
}

// ---------------------------------------------------------------------------
// Laws
// ---------------------------------------------------------------------------

/// Every tool that clients see passes the filters: an alias never brings back
/// a tool that the filters hide.
pub proof fn shown_tools_pass_the_filters(
    tools: Seq<ToolView>,
    server: Seq<char>,
    only: Seq<Seq<char>>,
    except: Seq<Seq<char>>,
    aliases: Seq<(Seq<char>, Seq<char>)>,
    i: int,
)
    requires
        0 <= i < shown_tools(tools, server, only, except, aliases).len(),
    ensures
        exposed(shown_tools(tools, server, only, except, aliases)[i], only, except),
{
    let kept = exposed_tools(tools, only, except);
    lemma_exposed(tools, only, except);
    lemma_aliases(kept, server, aliases);
    if i >= kept.len() {
        let extra = alias_tools(kept, server, aliases);
        let j = choose|j: int|
            0 <= j < kept.len() && (#[trigger] kept[j]).original_name == extra[i
                - kept.len()].original_name;
        assert(exposed(kept[j], only, except));
    }
}

proof fn lemma_exposed(tools: Seq<ToolView>, only: Seq<Seq<char>>, except: Seq<Seq<char>>)
    ensures
        forall|i: int|
            0 <= i < exposed_tools(tools, only, except).len() ==> exposed(
                #[trigger] exposed_tools(tools, only, except)[i],
                only,
                except,
            ),
    decreases tools.len(),
{
    if tools.len() > 0 {
        lemma_exposed(tools.drop_last(), only, except);
        let before = exposed_tools(tools.drop_last(), only, except);
        assert forall|i: int| 0 <= i < exposed_tools(tools, only, except).len() implies exposed(
            #[trigger] exposed_tools(tools, only, except)[i],
            only,
            except,
        ) by {
            if i < before.len() {
                assert(exposed_tools(tools, only, except)[i] == before[i]);
            }
        }
    }
}

proof fn lemma_called(tools: Seq<ToolView>, name: Seq<char>)
    ensures
        tool_called(tools, name) matches Some(t) ==> t.original_name == name && exists|j: int|
            0 <= j < tools.len() && #[trigger] tools[j] == t,
    decreases tools.len(),
{
    if tools.len() > 0 && tools[0].original_name != name {
        let rest = tools.subrange(1, tools.len() as int);
        lemma_called(rest, name);
        match tool_called(rest, name) {
            Some(t) => {
                let j = choose|j: int| 0 <= j < rest.len() && #[trigger] rest[j] == t;
                assert(tools[j + 1] == t);
            },
            None => {},
        }
    } else if tools.len() > 0 {
        assert(tools[0] == tools[0]);
    }
}

proof fn lemma_aliases(
    tools: Seq<ToolView>,
    server: Seq<char>,
    aliases: Seq<(Seq<char>, Seq<char>)>,
)
    ensures
        forall|i: int|
            0 <= i < alias_tools(tools, server, aliases).len() ==> exists|j: int|
                0 <= j < tools.len() && (#[trigger] tools[j]).original_name == (
                #[trigger] alias_tools(tools, server, aliases)[i]).original_name,
    decreases aliases.len(),
{
    if aliases.len() > 0 {
        lemma_aliases(tools, server, aliases.drop_last());
        lemma_called(tools, aliases.last().1);
        let before = alias_tools(tools, server, aliases.drop_last());
        let all = alias_tools(tools, server, aliases);
        assert forall|i: int| 0 <= i < all.len() implies exists|j: int|
            0 <= j < tools.len() && (#[trigger] tools[j]).original_name == (
            #[trigger] all[i]).original_name by {
            if i < before.len() {
                assert(all[i] == before[i]);
            } else {
                let t = tool_called(tools, aliases.last().1)->0;
                let j = choose|j: int| 0 <= j < tools.len() && #[trigger] tools[j] == t;
                assert(tools[j].original_name == all[i].original_name);
            }
        }
    }
}

/// Without filters and aliases, clients see the tools as they are.
pub proof fn no_rules_show_all(tools: Seq<ToolView>, server: Seq<char>)
    ensures
        shown_tools(tools, server, Seq::empty(), Seq::empty(), Seq::empty()) == tools,
{
    lemma_all_exposed(tools);
    assert(shown_tools(tools, server, Seq::empty(), Seq::empty(), Seq::empty()) =~= tools);
}

proof fn lemma_all_exposed(tools: Seq<ToolView>)
    ensures
        exposed_tools(tools, Seq::empty(), Seq::empty()) == tools,
    decreases tools.len(),
{
    if tools.len() > 0 {
        lemma_all_exposed(tools.drop_last());
        assert(tools =~= tools.drop_last().push(tools.last()));
    } else {
        assert(tools =~= Seq::empty());
    }
}

/// The wait before a restart never shrinks as restarts go on, and never
/// exceeds sixteen seconds.
pub proof fn backoff_grows_to_its_cap(a: int, b: int)
    requires
        0 <= a <= b,
    ensures
        1 <= backoff_secs(a) <= backoff_secs(b) <= 16,
{
}

/// The prefixes keep the tools of different servers apart: two of them have the
/// same name only if the name of one server is that of the other with `_` and
/// more behind it.
pub proof fn prefixes_keep_tools_apart(
    server: Seq<char>,
    tool: Seq<char>,
    other: Seq<char>,
    other_tool: Seq<char>,
)
    requires
        server != other,
        !crate::text::begins(server, other + "_"@),
        !crate::text::begins(other, server + "_"@),
    ensures
        tool_name(server, tool) != tool_name(other, other_tool),
{
    if server.len() <= other.len() {
        lemma_apart(server, tool, other, other_tool);
    } else {
        lemma_apart(other, other_tool, server, tool);
    }
}

proof fn lemma_apart(short: Seq<char>, a: Seq<char>, long: Seq<char>, b: Seq<char>)
    requires
        short.len() <= long.len(),
        short != long,
        !crate::text::begins(long, short + "_"@),
    ensures
        tool_name(short, a) != tool_name(long, b),
{
    reveal_strlit("_");
    let x = tool_name(short, a);
    let y = tool_name(long, b);
    if x == y {
        let n = short.len() as int;
        assert(x.subrange(0, n) =~= short);
        assert(y.subrange(0, n) =~= long.subrange(0, n));
        if short.len() == long.len() {
            assert(long.subrange(0, n) =~= long);
        } else {
            assert(x.subrange(0, n + 1) =~= short + "_"@);
            assert(y.subrange(0, n + 1) =~= long.subrange(0, n + 1));
        }
    }
}

/// The prefix keeps the tools of one server apart.
pub proof fn tools_of_a_server_stay_apart(server: Seq<char>, a: Seq<char>, b: Seq<char>)
    requires
        a != b,
    ensures
        tool_name(server, a) != tool_name(server, b),
{
    let x = tool_name(server, a);
    let y = tool_name(server, b);
    let n = (server + "_"@).len() as int;
    assert(x.subrange(n, x.len() as int) =~= a);
    assert(y.subrange(n, y.len() as int) =~= b);
}

/// A handshake succeeds if and only if the `initialize` request is answered and
/// the notification is written; the backend is then ready. It has the listed
/// tools, or keeps those it had if the list could not be had.
pub proof fn handshake_needs_no_list(
    first: Handshake,
    second: Handshake,
    third: Handshake,
    answer: Result<JsonView, Seq<char>>,
    written: Result<JsonView, Seq<char>>,
    list: Result<JsonView, Seq<char>>,
    before: Backend,
    after: Backend,
)
    requires
        stage_ends(first, Stage::Initialize, answer, before, before),
        answer is Ok ==> stage_ends(second, Stage::Notify, written, before, before),
        answer is Ok && written is Ok ==> stage_ends(third, Stage::List, list, before, after),
    ensures
        answer is Err ==> first is Failed,
        answer is Ok && written is Err ==> first == Handshake::Next(Stage::Notify)
            && second is Failed,
        answer is Ok && written is Ok ==> first == Handshake::Next(Stage::Notify) && second
            == Handshake::Next(Stage::List) && third is Done && after.ready,
        answer is Ok && written is Ok && list is Ok ==> tools_view(after.tools@) == listed_tools(
            list->Ok_0,
            before.name@,
        ),
        answer is Ok && written is Ok && list is Err ==> tools_view(after.tools@) == tools_view(
            before.tools@,
        ),
{
}

/// The launched process gets each variable of the config, with its reference
/// replaced by what the client or the process environment binds it to.
pub proof fn launched_process_gets_its_variables(
    l: Launch,
    srv: crate::config::ServerView,
    overrides: crate::expand::Texts,
    process_env: crate::expand::Texts,
    variable: Seq<char>,
    head: Seq<char>,
    name: Seq<char>,
    tail: Seq<char>,
    value: Seq<char>,
)
    requires
        starts_server(l, srv, overrides, process_env),
        srv.env.dom().contains(variable),
        !overrides.dom().contains(variable),
        srv.env[variable] == head + "${"@ + name + "}"@ + tail,
        !crate::text::contains_pat(head, "${"@),
        !name.contains('}'),
        overrides.dom().contains(name) ==> value == overrides[name],
        !overrides.dom().contains(name) && process_env.dom().contains(name) ==> value
            == process_env[name],
        !overrides.dom().contains(name) && !process_env.dom().contains(name) ==> value.len() == 0,
        !crate::text::contains_pat(head + value + tail, "${"@),
    ensures
        l.env@.dom().contains(variable),
        l.env@[variable] == head + value + tail,
{
    crate::config::config_variable_reaches_the_process(
        srv.env,
        overrides,
        process_env,
        variable,
        head,
        name,
        tail,
        value,
    );
}

/// The launched process gets what the client overrides, as it is, whatever the
/// config says, and a plain variable of the config as it is.
pub proof fn launched_process_gets_the_overrides(
    l: Launch,
    srv: crate::config::ServerView,
    overrides: crate::expand::Texts,
    process_env: crate::expand::Texts,
    variable: Seq<char>,
)
    requires
        starts_server(l, srv, overrides, process_env),
    ensures
        l.env@.dom().contains(variable) == (srv.env.dom().contains(variable)
            || overrides.dom().contains(variable)),
        overrides.dom().contains(variable) ==> l.env@[variable] == overrides[variable],
        !overrides.dom().contains(variable) && srv.env.dom().contains(variable)
            && !crate::text::contains_pat(srv.env[variable], "${"@) ==> l.env@[variable]
            == srv.env[variable],
{
    if !overrides.dom().contains(variable) && srv.env.dom().contains(variable)
        && !crate::text::contains_pat(srv.env[variable], "${"@) {
        crate::config::plain_config_variable_reaches_the_process(
            srv.env,
            overrides,
            process_env,
            variable,
        );
    }
}

/// The launched process gets the arguments of the config in order, with each
/// reference replaced, under the command of the config.
pub proof fn launched_process_gets_its_arguments(
    l: Launch,
    srv: crate::config::ServerView,
    overrides: crate::expand::Texts,
    process_env: crate::expand::Texts,
    i: int,
    head: Seq<char>,
    name: Seq<char>,
    tail: Seq<char>,
    value: Seq<char>,
)
    requires
        starts_server(l, srv, overrides, process_env),
        0 <= i < srv.args.len(),
        srv.args[i] == head + "${"@ + name + "}"@ + tail,
        !crate::text::contains_pat(head, "${"@),
        !name.contains('}'),
        overrides.dom().contains(name) ==> value == overrides[name],
        !overrides.dom().contains(name) && process_env.dom().contains(name) ==> value
            == process_env[name],
        !overrides.dom().contains(name) && !process_env.dom().contains(name) ==> value.len() == 0,
        !crate::text::contains_pat(head + value + tail, "${"@),
    ensures
        l.program@ == srv.command,
        l.args@.len() == srv.args.len(),
        l.args@[i]@ == head + value + tail,
{
    crate::config::one_reference_is_replaced(head, name, tail, overrides, process_env, value);
    assert(crate::text::texts(l.args@).len() == srv.args.len());
    assert(crate::text::texts(l.args@)[i] == l.args@[i]@);
}

/// A plain argument is passed on as it is, and a server runs in a container if
/// and only if it is to be installed for Docker.
pub proof fn launched_process_gets_plain_arguments(
    l: Launch,
    srv: crate::config::ServerView,
    overrides: crate::expand::Texts,
    process_env: crate::expand::Texts,
    i: int,
)
    requires
        starts_server(l, srv, overrides, process_env),
    ensures
        l.args@.len() == srv.args.len(),
        0 <= i < srv.args.len() && !crate::text::contains_pat(srv.args[i], "${"@) ==> l.args@[i]@
            == srv.args[i],
        l.docker == (srv.install is Some && srv.runtime == Runtime::Docker),
{
    assert(crate::text::texts(l.args@).len() == srv.args.len());
    if 0 <= i < srv.args.len() && !crate::text::contains_pat(srv.args[i], "${"@) {
        crate::config::text_without_references_is_left(srv.args[i], overrides, process_env);
        assert(crate::text::texts(l.args@)[i] == l.args@[i]@);
    }
}

/// A tool is kept by the filters if and only if its own name matches one of the
/// patterns to show, or there are none, and none of the patterns to hide.
pub proof fn filters_keep_what_matches(
    tools: Seq<ToolView>,
    only: Seq<Seq<char>>,
    except: Seq<Seq<char>>,
    t: ToolView,
)
    ensures
        exposed_tools(tools, only, except).contains(t) == (tools.contains(t) && (only.len() == 0
            || exists|i: int|
            0 <= i < only.len() && #[trigger] crate::glob::globs(only[i], t.original_name))
            && forall|i: int|
            0 <= i < except.len() ==> !#[trigger] crate::glob::globs(except[i], t.original_name)),
    decreases tools.len(),
{
    if tools.len() > 0 {
        let rest = tools.drop_last();
        filters_keep_what_matches(rest, only, except, t);
        crate::picked::lemma_push_contains(exposed_tools(rest, only, except), tools.last(), t);
        crate::picked::lemma_push_contains(rest, tools.last(), t);
        assert(tools =~= rest.push(tools.last()));
    }
}

/// The filters keep the order of the tools.
pub proof fn filters_keep_the_order(
    a: Seq<ToolView>,
    b: Seq<ToolView>,
    only: Seq<Seq<char>>,
    except: Seq<Seq<char>>,
)
    ensures
        exposed_tools(a + b, only, except) == exposed_tools(a, only, except) + exposed_tools(
            b,
            only,
            except,
        ),
    decreases b.len(),
{
    if b.len() == 0 {
        assert(a + b =~= a);
        assert(exposed_tools(a, only, except) + exposed_tools(b, only, except) =~= exposed_tools(
            a,
            only,
            except,
        ));
    } else {
        assert((a + b).drop_last() =~= a + b.drop_last());
        filters_keep_the_order(a, b.drop_last(), only, except);
        assert(exposed_tools(a + b, only, except) =~= exposed_tools(a, only, except)
            + exposed_tools(b, only, except));
    }
}

proof fn lemma_called_first(tools: Seq<ToolView>, name: Seq<char>)
    ensures
        tool_called(tools, name) is None <==> forall|j: int|
            0 <= j < tools.len() ==> (#[trigger] tools[j]).original_name != name,
    decreases tools.len(),
{
    if tools.len() > 0 {
        let rest = tools.subrange(1, tools.len() as int);
        lemma_called_first(rest, name);
        if tools[0].original_name != name {
            if tool_called(rest, name) is None {
                assert forall|j: int| 0 <= j < tools.len() implies (
                #[trigger] tools[j]).original_name != name by {
                    if j > 0 {
                        assert(rest[j - 1] == tools[j]);
                    }
                }
            } else {
                let j = choose|j: int|
                    0 <= j < rest.len() && (#[trigger] rest[j]).original_name == name;
                assert(tools[j + 1] == rest[j]);
            }
        }
    }
}

/// The alias of a shown tool is shown too: under the alias, with all else as
/// the tool has it. The alias of no shown tool is not.
pub proof fn aliases_of_shown_tools_are_shown(
    tools: Seq<ToolView>,
    server: Seq<char>,
    aliases: Seq<(Seq<char>, Seq<char>)>,
    k: int,
)
    requires
        0 <= k < aliases.len(),
    ensures
        (exists|j: int|
            0 <= j < tools.len() && (#[trigger] tools[j]).original_name == aliases[k].1) ==> exists|
            i: int,
            j: int,
        |
            #![trigger alias_tools(tools, server, aliases)[i], tools[j]]
            0 <= i < alias_tools(tools, server, aliases).len() && 0 <= j < tools.len()
                && tools[j].original_name == aliases[k].1 && alias_tools(
                tools,
                server,
                aliases,
            )[i].name == server + "_"@ + aliases[k].0 && alias_tools(
                tools,
                server,
                aliases,
            )[i].original_name == tools[j].original_name && alias_tools(
                tools,
                server,
                aliases,
            )[i].description == tools[j].description && alias_tools(
                tools,
                server,
                aliases,
            )[i].input_schema == tools[j].input_schema,
        alias_tools(tools, server, aliases).len() <= aliases.len(),
    decreases aliases.len(),
{
    let rest = aliases.drop_last();
    let before = alias_tools(tools, server, rest);
    let all = alias_tools(tools, server, aliases);
    lemma_alias_count(tools, server, aliases);
    lemma_called_first(tools, aliases[k].1);
    lemma_called(tools, aliases[k].1);
    if exists|j: int|
        0 <= j < tools.len() && (#[trigger] tools[j]).original_name == aliases[k].1 {
        if k == aliases.len() - 1 {
            let t = tool_called(tools, aliases[k].1)->0;
            let j = choose|j: int| 0 <= j < tools.len() && #[trigger] tools[j] == t;
            let i = before.len() as int;
            assert(all[i].name == tool_name(server, aliases[k].0));
            assert(tools[j].original_name == aliases[k].1);
        } else {
            assert(rest[k] == aliases[k]);
            aliases_of_shown_tools_are_shown(tools, server, rest, k);
            let (i, j) = choose|i: int, j: int|
                #![trigger before[i], tools[j]]
                0 <= i < before.len() && 0 <= j < tools.len() && tools[j].original_name
                    == rest[k].1 && before[i].name == server + "_"@ + rest[k].0
                    && before[i].original_name == tools[j].original_name
                    && before[i].description == tools[j].description && before[i].input_schema
                    == tools[j].input_schema;
            assert(all[i] == before[i]);
        }
    }
}

proof fn lemma_alias_count(
    tools: Seq<ToolView>,
    server: Seq<char>,
    aliases: Seq<(Seq<char>, Seq<char>)>,
)
    ensures
        alias_tools(tools, server, aliases).len() <= aliases.len(),
    decreases aliases.len(),
{
    if aliases.len() > 0 {
        lemma_alias_count(tools, server, aliases.drop_last());
    }
}

/// A tool that the filters keep is shown as it is, before the aliases.
pub proof fn kept_tools_are_shown(
    tools: Seq<ToolView>,
    server: Seq<char>,
    only: Seq<Seq<char>>,
    except: Seq<Seq<char>>,
    aliases: Seq<(Seq<char>, Seq<char>)>,
    i: int,
)
    requires
        0 <= i < exposed_tools(tools, only, except).len(),
    ensures
        shown_tools(tools, server, only, except, aliases)[i] == exposed_tools(
            tools,
            only,
            except,
        )[i],
        shown_tools(tools, server, only, except, aliases).len() <= exposed_tools(
            tools,
            only,
            except,
        ).len() + aliases.len(),
{
    lemma_alias_count(exposed_tools(tools, only, except), server, aliases);
}

/// An item of a list describes a tool of a server: it has the tool's own name as
/// a text, and the tool has the description and the schema of the item.
pub open spec fn describes(item: JsonView, server: Seq<char>, t: ToolView) -> bool {
    item is Object && {
        let m = item->Object_0;
        &&& m.dom().contains("name"@) && m["name"@] == JsonView::Str(t.original_name)
        &&& t.name == server + "_"@ + t.original_name
        &&& t.description is Some == (m.dom().contains("description"@) && m["description"@] is Str)
        &&& t.description is Some ==> m["description"@] == JsonView::Str(t.description->0)
        &&& t.input_schema is Some == m.dom().contains("inputSchema"@)
        &&& t.input_schema is Some ==> m["inputSchema"@] == t.input_schema->0
    }
}

/// The tools of a list are those that its items describe.
pub proof fn listed_tools_are_the_named_items(
    items: Seq<JsonView>,
    server: Seq<char>,
    t: ToolView,
)
    ensures
        listed_items(items, server).contains(t) == exists|i: int|
            0 <= i < items.len() && describes(#[trigger] items[i], server, t),
    decreases items.len(),
{
    if items.len() > 0 {
        let rest = items.drop_last();
        listed_tools_are_the_named_items(rest, server, t);
        assert(items[items.len() - 1] == items.last());
        assert(describes(items.last(), server, t) == (listed_tool(items.last(), server) == Some(
            t,
        )));
        match listed_tool(items.last(), server) {
            Some(u) => {
                crate::picked::lemma_push_contains(listed_items(rest, server), u, t);
            },
            None => {},
        }
        if listed_items(rest, server).contains(t) {
            let i = choose|i: int|
                0 <= i < rest.len() && describes(#[trigger] rest[i], server, t);
            assert(items[i] == rest[i]);
        }
        if exists|i: int| 0 <= i < items.len() && describes(#[trigger] items[i], server, t) {
            let i = choose|i: int|
                0 <= i < items.len() && describes(#[trigger] items[i], server, t);
            if i < rest.len() {
                assert(rest[i] == items[i]);
            }
        }
    }
}

/// The tools of two lists one after the other are those of the first, then
/// those of the second.
pub proof fn listed_tools_keep_their_order(
    a: Seq<JsonView>,
    b: Seq<JsonView>,
    server: Seq<char>,
)
    ensures
        listed_items(a + b, server) == listed_items(a, server) + listed_items(b, server),
        listed_tools(
            JsonView::Object(Map::empty().insert("tools"@, JsonView::Array(a))),
            server,
        ) == listed_items(a, server),
    decreases b.len(),
{
    if b.len() == 0 {
        assert(a + b =~= a);
        assert(listed_items(a, server) + listed_items(b, server) =~= listed_items(a, server));
    } else {
        assert((a + b).drop_last() =~= a + b.drop_last());
        listed_tools_keep_their_order(a, b.drop_last(), server);
        assert(listed_items(a + b, server) =~= listed_items(a, server) + listed_items(b, server));
    }
}

/// A call of a tool says the name that the backend knows it by, and the
/// arguments.
pub proof fn call_says_tool_and_arguments(tool: Seq<char>, args: JsonView)
    ensures
        crate::json::member_of(call_params(tool, args), "name"@) == Some(JsonView::Str(tool)),
        crate::json::member_of(call_params(tool, args), "arguments"@) == Some(args),
{
    reveal_strlit("name");
    reveal_strlit("arguments");
    assert("name"@.len() != "arguments"@.len());
}

/// The handshake says the protocol and the program.
pub proof fn handshake_says_who_asks()
    ensures
        crate::json::member_of(initialize_params(), "protocolVersion"@) == Some(
            JsonView::Str("2024-11-05"@),
        ),
        crate::json::member_of(initialize_params(), "capabilities"@) is Some,
        crate::json::member_of(initialize_params(), "clientInfo"@) matches Some(s)
            && crate::json::member_of(s, "name"@) == Some(JsonView::Str("mcp-proxy"@))
            && crate::json::member_of(s, "version"@) == Some(JsonView::Str("0.1.0"@)),
{
    reveal_strlit("protocolVersion");
    reveal_strlit("capabilities");
    reveal_strlit("clientInfo");
    reveal_strlit("name");
    reveal_strlit("version");
    assert("protocolVersion"@.len() == 15 && "capabilities"@.len() == 12 && "clientInfo"@.len()
        == 10);
    assert("name"@.len() == 4 && "version"@.len() == 7);
}

/// An error in a response wins over a result; a response without either is
/// null.
pub proof fn error_wins_over_result(result: Option<JsonView>, error: Option<Seq<char>>)
    ensures
        answer_of(result, error) is Err == (error is Some),
        error is Some ==> answer_of(result, error) == Err::<JsonView, Seq<char>>(error->0),
        error is None && result is Some ==> answer_of(result, error) == Ok::<
            JsonView,
            Seq<char>,
        >(result->0),
        error is None && result is None ==> answer_of(result, error) == Ok::<
            JsonView,
            Seq<char>,
        >(JsonView::Null),
{
}

/// The wait before a restart is one second at first and doubles with each, up
/// to the fourth.
pub proof fn backoff_doubles(count: int)
    requires
        0 <= count,
    ensures
        backoff_secs(0) == 1,
        count < 4 ==> backoff_secs(count + 1) == 2 * backoff_secs(count),
        count >= 4 ==> backoff_secs(count) == backoff_secs(4),
{
}

/// What a server does not say is five restarts and thirty seconds.
pub proof fn limits_are_those_of_the_server(srv: crate::config::ServerView)
    ensures
        srv.max_restarts is Some ==> max_restarts(srv) == srv.max_restarts->0,
        srv.max_restarts is None ==> max_restarts(srv) == 5,
        srv.timeout_secs is Some ==> timeout_of(srv) == srv.timeout_secs->0,
        srv.timeout_secs is None ==> timeout_of(srv) == 30,
{
}

/// Taking an id out takes that id out and leaves the others in order.
pub proof fn other_requests_stay_open(s: Seq<u64>, t: Seq<u64>, id: u64, other: u64)
    ensures
        without_id(s, id).contains(other) == (s.contains(other) && other != id),
        without_id(s + t, id) == without_id(s, id) + without_id(t, id),
    decreases s.len() + t.len(),
{
    if s.len() > 0 {
        other_requests_stay_open(s.drop_last(), Seq::empty(), id, other);
        assert(s =~= s.drop_last().push(s.last()));
        crate::picked::lemma_push_contains(s.drop_last(), s.last(), other);
        crate::picked::lemma_push_contains(without_id(s.drop_last(), id), s.last(), other);
    }
    if t.len() == 0 {
        assert(s + t =~= s);
        assert(without_id(s, id) + without_id(t, id) =~= without_id(s, id));
    } else {
        assert((s + t).drop_last() =~= s + t.drop_last());
        other_requests_stay_open(s, t.drop_last(), id, other);
        assert(without_id(s + t, id) =~= without_id(s, id) + without_id(t, id));
    }
}

/// The stages of a handshake are sent as their methods.
pub proof fn stages_have_their_methods()
    ensures
        Stage::Initialize.method_text() == "initialize"@,
        Stage::Notify.method_text() == "notifications/initialized"@,
        Stage::List.method_text() == "tools/list"@,
{
}

/// A request has an id of its own: no request that is open has it, and the next
/// request does not get it.
pub proof fn requests_have_ids_of_their_own(
    a: (u64, String),
    b: (u64, String),
    before: Backend,
    between: Backend,
    after: Backend,
    method_a: Seq<char>,
    params_a: JsonView,
    method_b: Seq<char>,
    params_b: JsonView,
)
    requires
        before.wf(),
        request_begins(Ok(a), before, between, method_a, params_a),
        request_begins(Ok(b), between, after, method_b, params_b),
    ensures
        a.0 != b.0,
        !before.pending@.contains(a.0),
        after.pending@.contains(a.0),
        after.pending@.contains(b.0),
{
    let p = after.pending@;
    assert(p[before.pending@.len() as int] == a.0);
    assert(p[before.pending@.len() as int + 1] == b.0);
}

/// The response with the id of a request answers that request, which is then no
/// longer open; the others stay open. An error in the response is the answer,
/// else the result is.
pub proof fn response_answers_its_request(
    asked: (u64, String),
    before: Backend,
    between: Backend,
    after: Backend,
    method: Seq<char>,
    params: JsonView,
    resp: Response,
    r: Option<(u64, Result<Json, String>)>,
)
    requires
        before.wf(),
        request_begins(Ok(asked), before, between, method, params),
        response_comes(r, resp, between, after),
        resp.id == Some(asked.0),
    ensures
        r is Some,
        (r->0).0 == asked.0,
        after.pending@ == before.pending@,
        resp.error is Some ==> ((r->0).1 matches Err(e) && e@ == resp.error->0.message@),
        resp.error is None && resp.result is Some ==> ((r->0).1 matches Ok(v) && v@
            == resp.result->0@),
        resp.error is None && resp.result is None ==> ((r->0).1 matches Ok(v) && v@
            == JsonView::Null),
{
    let p = before.pending@;
    assert(between.pending@[p.len() as int] == asked.0);
    assert(between.pending@.contains(asked.0));
    lemma_without_absent(p, asked.0);
    assert(p.push(asked.0).drop_last() =~= p);
}

proof fn lemma_without_absent(s: Seq<u64>, id: u64)
    requires
        !s.contains(id),
    ensures
        without_id(s, id) == s,
    decreases s.len(),
{
    if s.len() > 0 {
        let t = s.drop_last();
        if t.contains(id) {
            let k = choose|k: int| 0 <= k < t.len() && t[k] == id;
            assert(s[k] == id);
        }
        assert(s.last() == s[s.len() - 1]);
        lemma_without_absent(t, id);
        assert(t.push(s.last()) =~= s);
    }
}

/// A response to no open request, or without an id, changes nothing.
pub proof fn stray_responses_are_ignored(
    r: Option<(u64, Result<Json, String>)>,
    resp: Response,
    before: Backend,
    after: Backend,
)
    requires
        response_comes(r, resp, before, after),
        resp.id is None || !before.pending@.contains(resp.id->0),
    ensures
        r is None,
        after.pending@ == before.pending@,
        after.tools == before.tools,
        after.crashed == before.crashed,
{
}

/// What is sent for a request says its id, its method and its parameters.
pub proof fn request_line_says_what_is_asked(
    asked: (u64, String),
    before: Backend,
    after: Backend,
    method: Seq<char>,
    params: JsonView,
)
    requires
        request_begins(Ok(asked), before, after, method, params),
    ensures
        exists|v: JsonView|
            asked.1@ == #[trigger] crate::json::compact_text(v) && crate::json::member_of(
                v,
                "id"@,
            ) == Some(JsonView::Int(asked.0 as int)) && crate::json::member_of(v, "method"@)
                == Some(JsonView::Str(method)) && crate::json::member_of(v, "params"@) == Some(
                params,
            ),
{
    crate::jsonrpc::request_says_what_it_asks("2.0"@, asked.0 as int, method, params);
    let v = crate::jsonrpc::request_json("2.0"@, asked.0 as int, method, params);
    assert(asked.1@ == crate::json::compact_text(v));
}

/// When the process exits, every request that was open fails, none stays open,
/// and no request begins before a restart.
pub proof fn exit_fails_all_requests(
    r: (Vec<u64>, String),
    before: Backend,
    after: Backend,
    next: Result<(u64, String), String>,
    later: Backend,
    method: Seq<char>,
    params: JsonView,
    id: u64,
)
    requires
        process_exits(r, before, after),
        request_begins(next, after, later, method, params),
    ensures
        r.0@.contains(id) == before.pending@.contains(id),
        !after.pending@.contains(id),
        next is Err,
        after.tools == before.tools,
        after.restart_count == before.restart_count,
{
}

/// A call of a crashed backend that may restart waits for a restart, if there is
/// one left; a call of one that runs is sent, as a call of that tool with those
/// arguments.
pub proof fn calls_restart_what_crashed(
    r: CallStep,
    before: Backend,
    after: Backend,
    tool: Seq<char>,
    args: JsonView,
)
    requires
        tool_call_begins(r, before, after, tool, args),
    ensures
        r is Send == (!before.crashed && before.stdin_open),
        r is Restart == (before.crashed && before.cfg_snapshot.auto_restart
            && before.restart_count < max_restarts(before.cfg_snapshot@)),
        r matches CallStep::Restart(secs) ==> secs == backoff_secs(before.restart_count as int),
        r matches CallStep::Send { id, line } ==> exists|v: JsonView, p: JsonView|
            line@ == #[trigger] crate::json::compact_text(v) && crate::json::member_of(v, "id"@)
                == Some(JsonView::Int(id as int)) && crate::json::member_of(v, "method"@) == Some(
                JsonView::Str("tools/call"@),
            ) && crate::json::member_of(v, "params"@) == Some(p) && #[trigger]
            crate::json::member_of(p, "name"@) == Some(JsonView::Str(tool))
                && crate::json::member_of(p, "arguments"@) == Some(args),
{
    match r {
        CallStep::Send { id, line } => {
            let p = call_params(tool, args);
            let v = crate::jsonrpc::request_json("2.0"@, id as int, "tools/call"@, p);
            crate::jsonrpc::request_says_what_it_asks("2.0"@, id as int, "tools/call"@, p);
            call_says_tool_and_arguments(tool, args);
            assert(line@ == crate::json::compact_text(v));
            assert(crate::json::member_of(p, "name"@) == Some(JsonView::Str(tool)));
        },
        _ => {},
    }
}

/// A backend is restarted as often as its server allows, with a growing wait, and
/// a restarted backend is up again when its process runs and has shaken hands.
pub proof fn restarts_are_limited(
    r: Result<u64, String>,
    b: Backend,
    restarting: Backend,
    running: Backend,
)
    requires
        restart_is_due(r, b),
        b.restart_count < u32::MAX,
        restart_begins(b, restarting),
        process_is_new(restarting, running),
    ensures
        r is Ok == (b.restart_count < (match b.cfg_snapshot@.max_restarts {
            Some(m) => m as int,
            None => 5int,
        })),
        r matches Ok(secs) ==> 1 <= secs <= 16,
        restarting.restart_count == b.restart_count + 1,
        !restarting.stdin_open,
        running.restart_count == b.restart_count + 1,
        running.stdin_open && !running.crashed && !running.ready,
        running.pending@.len() == 0,
        running.tools == b.tools,
        running.same_setup(&b),
{
    if r is Ok {
        backoff_grows_to_its_cap(b.restart_count as int, b.restart_count as int);
    }
}

/// When a backend is up, its tools are those it listed, filtered and with their
/// aliases.
pub proof fn backend_that_is_up_has_its_tools(
    r: Handshake,
    items: Seq<JsonView>,
    before: Backend,
    after: Backend,
)
    requires
        brought_up(
            r,
            Stage::List,
            Ok(JsonView::Object(Map::empty().insert("tools"@, JsonView::Array(items)))),
            before,
            after,
        ),
    ensures
        r is Done,
        after.ready,
        tools_view(after.tools@) == shown_tools(
            listed_items(items, before.name@),
            before.name@,
            before.cfg_snapshot@.include_tools,
            before.cfg_snapshot@.exclude_tools,
            before.cfg_snapshot.tool_aliases.pairs(),
        ),
        after.pending == before.pending,
        after.restart_count == before.restart_count,
{
}

/// Arguments without references are expanded at once; one reference each, to a
/// value without any, takes one replacement.
pub proof fn plain_arguments_are_expanded(
    args: Seq<Seq<char>>,
    overrides: crate::expand::Texts,
    process_env: crate::expand::Texts,
    limit: nat,
)
    requires
        forall|i: int|
            0 <= i < args.len() ==> !crate::text::contains_pat(#[trigger] args[i], "${"@),
    ensures
        args_settle_by(args, overrides, process_env, limit),
        expanded_args(args, overrides, process_env) == args,
{
    assert forall|i: int| 0 <= i < args.len() implies crate::expand::settles_by(
        #[trigger] args[i],
        crate::config::var_marks(),
        overrides,
        process_env,
        limit,
    ) by {
        crate::config::text_without_references_is_left(args[i], overrides, process_env);
        crate::expand::lemma_settled_stays(
            args[i],
            crate::config::var_marks(),
            overrides,
            process_env,
            0,
            limit,
        );
    }
    assert forall|i: int| 0 <= i < args.len() implies expanded_args(
        args,
        overrides,
        process_env,
    )[i] == args[i] by {
        crate::config::text_without_references_is_left(args[i], overrides, process_env);
    }
    assert(expanded_args(args, overrides, process_env) =~= args);
}

/// An argument with one reference, which the client or the process environment
/// binds to a value without any, is expanded by one replacement.
pub proof fn bound_arguments_are_expanded(
    overrides: crate::expand::Texts,
    process_env: crate::expand::Texts,
    limit: nat,
    head: Seq<char>,
    name: Seq<char>,
    tail: Seq<char>,
    value: Seq<char>,
)
    requires
        limit >= 1,
        !crate::text::contains_pat(head, "${"@),
        !name.contains('}'),
        overrides.dom().contains(name) ==> value == overrides[name],
        !overrides.dom().contains(name) && process_env.dom().contains(name) ==> value
            == process_env[name],
        !overrides.dom().contains(name) && !process_env.dom().contains(name) ==> value.len() == 0,
        !crate::text::contains_pat(head + value + tail, "${"@),
    ensures
        args_settle_by(
            seq![head + "${"@ + name + "}"@ + tail],
            overrides,
            process_env,
            limit,
        ),
{
    crate::config::one_reference_is_replaced(head, name, tail, overrides, process_env, value);
    crate::expand::lemma_settled_stays(
        head + "${"@ + name + "}"@ + tail,
        crate::config::var_marks(),
        overrides,
        process_env,
        1,
        limit,
    );
}

/// An argument that holds itself, by way of the process environment, keeps a
/// server from being launched.
pub proof fn an_argument_that_holds_itself_is_not_expanded(
    args: Seq<Seq<char>>,
    i: int,
    name: Seq<char>,
    overrides: crate::expand::Texts,
    process_env: crate::expand::Texts,
    limit: nat,
)
    requires
        0 <= i < args.len(),
        args[i] == "${"@ + name + "}"@,
        !name.contains('}'),
        !overrides.dom().contains(name),
        process_env.dom().contains(name),
        process_env[name] == "${"@ + name + "}"@,
    ensures
        !args_settle_by(args, overrides, process_env, limit),
{
    crate::config::a_variable_that_holds_itself_is_not_resolved(
        name,
        overrides,
        process_env,
        limit,
    );
}

/// The message about a process that could not be spawned says which server,
/// which command and why.
pub proof fn spawn_failure_says_what_and_why(name: Seq<char>, command: Seq<char>, e: Seq<char>)
    ensures
        crate::text::contains_pat(
            spawn_failure(name, command, e),
            "failed to spawn '"@ + name + "': command '"@ + command + "' — "@ + e,
        ),
        crate::text::contains_pat(
            spawn_failure(name, command, e),
            command + "' installed and on your PATH?"@,
        ),
{
    let none = Seq::<char>::empty();
    let a = "failed to spawn '"@ + name + "': command '"@ + command + "' — "@ + e;
    let b = "\nhint: is '"@ + command + "' installed and on your PATH?"@;
    let s = spawn_failure(name, command, e);
    assert(s =~= none + a + b);
    crate::text::lemma_part_stands(none, a, b);
    let c = command + "' installed and on your PATH?"@;
    assert(s =~= (a + "\nhint: is '"@) + c + none);
    crate::text::lemma_part_stands(a + "\nhint: is '"@, c, none);
}

} // verus!
