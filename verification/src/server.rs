//! The hub: one JSON-RPC surface over the pool and the custom tools.
use vstd::prelude::*;

use crate::backend::{PROGRAM_VERSION, Tool, ToolView, copy_tools_to, tools_view};
use crate::config::Config;
use crate::custom_tools::{CustomCall, CustomTools};
use crate::json::{Json, JsonView, js, no_members, put, text};
use crate::jsonrpc::{RpcError, RpcErrorView};
use crate::names::{Duplicate, NameMap};
use crate::pool::entry::Slot;
use crate::pool::{BackendPool, CallStart};
use crate::text::same_text;

pub use crate::backend::MCP_PROTOCOL_VERSION;
pub use crate::pool::{BackendProgress, relevant_env_keys};

verus! {

/// The session of the stdio transport.
pub const STDIO_SESSION_ID: &'static str = "__stdio__";

// ---------------------------------------------------------------------------
// Requests
// ---------------------------------------------------------------------------

/// The parts of a request.
pub struct RequestParts {
    /// The method; empty if there is none.
    pub method: String,
    /// The parameters; null if there are none.
    pub params: Json,
    /// The id; a request without one is a notification.
    pub id: Option<Json>,
}

/// `v`, or null.
pub open spec fn or_null(v: Option<JsonView>) -> JsonView {
    match v {
        Some(v) => v,
        None => JsonView::Null,
    }
}

/// `s`, or the empty text.
pub open spec fn or_empty(s: Option<Seq<char>>) -> Seq<char> {
    match s {
        Some(s) => s,
        None => Seq::empty(),
    }
}

/// Takes a request apart.
pub fn request_parts(req: &Json) -> (r: RequestParts)
    ensures
        r.method@ == or_empty(
            crate::json::text_of(crate::json::member_of(req@, "method"@)),
        ),
        r.params@ == or_null(crate::json::member_of(req@, "params"@)),
        crate::config::opt_json(r.id) == crate::json::member_of(req@, "id"@),
{
    let method: String = match req.text_at("method") {
        Some(m) => m,
        None => String::new(),
    };
    let id: Option<Json> = match req.get("id") {
        Some(v) => Some(v.duplicate()),
        None => None,
    };
    assert(Seq::<char>::empty() =~= or_empty(None));
    RequestParts { method, params: req.get_or_null("params"), id }
}

/// What a request asks for.
pub enum Dispatch {
    /// It has this result.
    Reply(Json),
    /// It asks for the list of tools.
    ListTools,
    /// It calls a tool.
    CallTool { name: String, args: Json },
    /// It fails.
    Fail(RpcError),
}

/// What a dispatch stands for.
pub enum DispatchView {
    Reply(JsonView),
    ListTools,
    CallTool { name: Seq<char>, args: JsonView },
    Fail(RpcErrorView),
}

impl View for Dispatch {
    type V = DispatchView;

    open spec fn view(&self) -> DispatchView {
        match *self {
            Dispatch::Reply(v) => DispatchView::Reply(v@),
            Dispatch::ListTools => DispatchView::ListTools,
            Dispatch::CallTool { name, args } => DispatchView::CallTool {
                name: name@,
                args: args@,
            },
            Dispatch::Fail(e) => DispatchView::Fail(e@),
        }
    }
}

/// The result of `initialize`.
pub open spec fn initialize_json() -> JsonView {
    JsonView::Object(
        no_members().insert("protocolVersion"@, js("2024-11-05"@)).insert(
            "capabilities"@,
            JsonView::Object(no_members().insert("tools"@, JsonView::Object(no_members()))),
        ).insert(
            "serverInfo"@,
            JsonView::Object(
                no_members().insert("name"@, js("mcp-proxy"@)).insert("version"@, js("0.1.0"@)),
            ),
        ),
    )
}

fn initialize_result() -> (r: Json)
    ensures
        r@ == initialize_json(),
{
    let mut capabilities: Vec<(String, Json)> = Vec::new();
    put(&mut capabilities, "tools", Json::Object(Vec::new()));
    let mut info: Vec<(String, Json)> = Vec::new();
    put(&mut info, "name", text("mcp-proxy"));
    put(&mut info, "version", text(PROGRAM_VERSION));
    let mut m: Vec<(String, Json)> = Vec::new();
    put(&mut m, "protocolVersion", text(MCP_PROTOCOL_VERSION));
    put(&mut m, "capabilities", Json::Object(capabilities));
    put(&mut m, "serverInfo", Json::Object(info));
    Json::Object(m)
}

/// What a request with the given method and parameters asks for.
pub open spec fn dispatched(method: Seq<char>, params: JsonView) -> DispatchView {
    if method == "initialize"@ {
        DispatchView::Reply(initialize_json())
    } else if method == "notifications/initialized"@ {
        DispatchView::Reply(JsonView::Null)
    } else if method == "tools/list"@ {
        DispatchView::ListTools
    } else if method == "tools/call"@ {
        match crate::json::text_of(crate::json::member_of(params, "name"@)) {
            Some(name) => DispatchView::CallTool {
                name,
                args: or_null(crate::json::member_of(params, "arguments"@)),
            },
            None => DispatchView::Fail(RpcErrorView::InvalidParams("missing tool name"@)),
        }
    } else if method == "resources/list"@ || method == "resources/read"@ {
        DispatchView::Fail(
            RpcErrorView::MethodNotFound("resources are not supported by mcp-proxy"@),
        )
    } else if method == "prompts/list"@ || method == "prompts/get"@ {
        DispatchView::Fail(
            RpcErrorView::MethodNotFound("prompts are not supported by mcp-proxy"@),
        )
    } else {
        DispatchView::Fail(RpcErrorView::MethodNotFound(method))
    }
}

/// Decides what a request asks for.
pub fn dispatch(method: &str, params: &Json) -> (r: Dispatch)
    ensures
        r@ == dispatched(method@, params@),
{
    if same_text(method, "initialize") {
        Dispatch::Reply(initialize_result())
    } else if same_text(method, "notifications/initialized") {
        Dispatch::Reply(Json::Null)
    } else if same_text(method, "tools/list") {
        Dispatch::ListTools
    } else if same_text(method, "tools/call") {
        match params.text_at("name") {
            Some(name) => Dispatch::CallTool { name, args: params.get_or_null("arguments") },
            None => Dispatch::Fail(RpcError::InvalidParams("missing tool name".to_owned())),
        }
    } else if same_text(method, "resources/list") || same_text(method, "resources/read") {
        Dispatch::Fail(
            RpcError::MethodNotFound("resources are not supported by mcp-proxy".to_owned()),
        )
    } else if same_text(method, "prompts/list") || same_text(method, "prompts/get") {
        Dispatch::Fail(
            RpcError::MethodNotFound("prompts are not supported by mcp-proxy".to_owned()),
        )
    } else {
        Dispatch::Fail(RpcError::MethodNotFound(method.to_owned()))
    }
}

// ---------------------------------------------------------------------------
// Lists of tools
// ---------------------------------------------------------------------------

/// A tool as clients get it: without a description or a schema that it does
/// not have.
pub open spec fn tool_json(t: ToolView) -> JsonView {
    let a = no_members().insert("name"@, js(t.name));
    let b = match t.description {
        Some(d) => a.insert("description"@, js(d)),
        None => a,
    };
    let c = match t.input_schema {
        Some(s) => b.insert("inputSchema"@, s),
        None => b,
    };
    JsonView::Object(c)
}

fn tool_to_json(t: &Tool) -> (r: Json)
    ensures
        r@ == tool_json(t@),
{
    let mut m: Vec<(String, Json)> = Vec::new();
    put(&mut m, "name", text(t.name.as_str()));
    match &t.description {
        Some(d) => {
            put(&mut m, "description", text(d.as_str()));
        },
        None => {},
    }
    match &t.input_schema {
        Some(s) => {
            put(&mut m, "inputSchema", s.duplicate());
        },
        None => {},
    }
    Json::Object(m)
}

/// What the servers that failed, with their messages, stand for.
pub open spec fn errors_view(s: Seq<(String, String)>) -> Seq<(Seq<char>, Seq<char>)> {
    Seq::new(s.len(), |i: int| (s[i].0@, s[i].1@))
}

/// A server that failed, as clients get it.
pub open spec fn error_json(e: (Seq<char>, Seq<char>)) -> JsonView {
    JsonView::Object(no_members().insert("server"@, js(e.0)).insert("error"@, js(e.1)))
}

/// The result of `tools/list`: the tools, and the servers that failed, if any.
pub open spec fn list_json(tools: Seq<ToolView>, errors: Seq<(Seq<char>, Seq<char>)>) -> JsonView {
    let m = no_members().insert(
        "tools"@,
        JsonView::Array(Seq::new(tools.len(), |i: int| tool_json(tools[i]))),
    );
    if errors.len() == 0 {
        JsonView::Object(m)
    } else {
        JsonView::Object(
            m.insert(
                "_errors"@,
                JsonView::Array(Seq::new(errors.len(), |i: int| error_json(errors[i]))),
            ),
        )
    }
}

/// Builds the result of `tools/list`.
pub fn list_result(tools: &Vec<Tool>, errors: &Vec<(String, String)>) -> (r: Json)
    ensures
        r@ == list_json(tools_view(tools@), errors_view(errors@)),
{
    let ghost tv = tools_view(tools@);
    let ghost ev = errors_view(errors@);
    let mut items: Vec<Json> = Vec::new();
    let mut i: usize = 0;
    assert(crate::json::items_view(items@) =~= Seq::new(0, |k: int| tool_json(tv[k])));
    while i < tools.len()
        invariant
            tv == tools_view(tools@),
            i <= tools@.len(),
            crate::json::items_view(items@) == Seq::new(i as nat, |k: int| tool_json(tv[k])),
        decreases tools@.len() - i,
    {
        let j = tool_to_json(&tools[i]);
        proof {
            crate::json::lemma_items_push(items@, j);
            assert(crate::json::items_view(items@).push(j@) =~= Seq::new(
                (i + 1) as nat,
                |k: int| tool_json(tv[k]),
            ));
        }
        items.push(j);
        i = i + 1;
    }
    let mut m: Vec<(String, Json)> = Vec::new();
    put(&mut m, "tools", Json::Array(items));
    if errors.len() > 0 {
        let mut list: Vec<Json> = Vec::new();
        let mut i: usize = 0;
        assert(crate::json::items_view(list@) =~= Seq::new(0, |k: int| error_json(ev[k])));
        while i < errors.len()
            invariant
                ev == errors_view(errors@),
                i <= errors@.len(),
                crate::json::items_view(list@) == Seq::new(i as nat, |k: int| error_json(ev[k])),
            decreases errors@.len() - i,
        {
            let mut e: Vec<(String, Json)> = Vec::new();
            put(&mut e, "server", text(errors[i].0.as_str()));
            put(&mut e, "error", text(errors[i].1.as_str()));
            let j: Json = Json::Object(e);
            proof {
                crate::json::lemma_items_push(list@, j);
                assert(crate::json::items_view(list@).push(j@) =~= Seq::new(
                    (i + 1) as nat,
                    |k: int| error_json(ev[k]),
                ));
            }
            list.push(j);
            i = i + 1;
        }
        put(&mut m, "_errors", Json::Array(list));
    }
    Json::Object(m)
}

// ---------------------------------------------------------------------------
// The hub
// ---------------------------------------------------------------------------

/// The pool and the custom tools.
pub struct Hub {
    pub pool: BackendPool,
    pub custom: CustomTools,
}

/// Where a tool call goes.
pub enum HubCall {
    /// To a custom tool.
    Custom(CustomCall),
    /// To a backend.
    Backend(CallStart),
}

/// All tools that a client sees: those of backends, then the custom ones.
pub open spec fn all_tools(
    servers: Seq<(Seq<char>, crate::config::ServerView)>,
    slots: Seq<Slot>,
    custom: Seq<(Seq<char>, crate::config::CustomToolView)>,
    client: crate::pool::Client,
) -> Seq<ToolView> {
    crate::pool::visible_tools(servers, slots, client) + crate::custom_tools::custom_tool_views(
        custom,
    )
}

/// A call goes to the custom tool of its name, if there is one, else to the
/// pool.
pub open spec fn hub_calls(
    r: HubCall,
    name: Seq<char>,
    args: JsonView,
    tools: Map<Seq<char>, crate::config::CustomToolView>,
    client: crate::pool::Client,
    limit: nat,
    before: BackendPool,
    after: BackendPool,
    now_ms: u64,
) -> bool {
    let key = crate::custom_tools::custom_key(name);
    let given = crate::custom_tools::argument_texts(args);
    match r {
        HubCall::Custom(c) => {
            &&& tools.dom().contains(key)
            &&& after == before
            &&& if crate::custom_tools::tool_settles(
                tools[key],
                given,
                client.process_env,
                limit,
            ) {
                crate::custom_tools::is_call_of(c, tools[key], given, client.process_env)
            } else {
                c is Unsettled
            }
        },
        HubCall::Backend(c) => {
            &&& !tools.dom().contains(key)
            &&& crate::pool::call_begins(
                c,
                name,
                before.config.servers.pairs(),
                client,
                before.slots@,
                after.slots@,
                now_ms,
            )
        },
    }
}

impl Hub {
    /// A hub for a config, without backends.
    pub fn new(config: &Config, process_env: &NameMap<String>) -> (r: Self)
        ensures
            r.pool.wf(),
            r.pool.slots@.len() == 0,
            r.pool.config@ == config@,
            r.pool.config.servers.pairs() == config.servers.pairs(),
            r.custom.tools.pairs() == crate::picked::picked(
                config.custom_tools.pairs(),
                crate::custom_tools::in_use(process_env@),
            ),
    {
        Hub {
            pool: BackendPool::new(config),
            custom: CustomTools::new(&config.custom_tools, process_env),
        }
    }

    /// The tools that a client sees: those of its backends, then the custom
    /// ones.
    pub fn list_tools_for(
        &mut self,
        servers: &Vec<String>,
        env_overrides: &NameMap<String>,
        session_id: &str,
        process_env: &NameMap<String>,
        now_ms: u64,
    ) -> (r: Vec<Tool>)
        requires
            old(self).pool.wf(),
        ensures
            final(self).pool.wf(),
            final(self).custom == old(self).custom,
            final(self).pool.config == old(self).pool.config,
            tools_view(r@) == all_tools(
                old(self).pool.config.servers.pairs(),
                old(self).pool.slots@,
                old(self).custom.tools.pairs(),
                crate::pool::client_of(servers@, env_overrides@, session_id@, process_env@),
            ),
            final(self).pool.slots@ == crate::pool::slots_used(
                old(self).pool.config.servers.pairs(),
                old(self).pool.slots@,
                crate::pool::client_of(servers@, env_overrides@, session_id@, process_env@),
                now_ms,
            ),
    {
        let mut tools = self.pool.collect_tools(
            servers,
            env_overrides,
            session_id,
            process_env,
            now_ms,
        );
        let custom = self.custom.list();
        copy_tools_to(&custom, &mut tools);
        tools
    }

    /// Begins a tool call: a custom tool comes first, else the pool decides.
    pub fn call_tool_for(
        &mut self,
        name: &str,
        args: &Json,
        servers: &Vec<String>,
        env_overrides: &NameMap<String>,
        session_id: &str,
        process_env: &NameMap<String>,
        limit: u64,
        now_ms: u64,
    ) -> (r: HubCall)
        requires
            old(self).pool.wf(),
        ensures
            final(self).pool.wf(),
            final(self).custom == old(self).custom,
            final(self).pool.config == old(self).pool.config,
            hub_calls(
                r,
                name@,
                args@,
                old(self).custom.tools@,
                crate::pool::client_of(servers@, env_overrides@, session_id@, process_env@),
                limit as nat,
                old(self).pool,
                final(self).pool,
                now_ms,
            ),
    {
        if self.custom.has(name) {
            return HubCall::Custom(self.custom.call(name, args, process_env, limit));
        }
        HubCall::Backend(
            self.pool.start_call(
                name,
                servers,
                env_overrides,
                session_id,
                process_env,
                now_ms,
            ),
        )
    }

    /// Decides what a request asks for.
    pub fn handle_request(&self, method: &str, params: &Json) -> (r: Dispatch)
        ensures
            r@ == dispatched(method@, params@),
    {
        dispatch(method, params)
    }

    /// The health of the pool.
    pub fn health(&self, now_ms: u64) -> (r: Json)
        ensures
            r@ == crate::pool::health_json(self.pool.slots@, now_ms),
    {
        self.pool.health(now_ms)
    }

    /// Takes all backends of a session out of the pool.
    pub fn cleanup_session(&mut self, session_id: &str) -> (r: Vec<Slot>)
        requires
            old(self).pool.wf(),
        ensures
            final(self).pool.wf(),
            final(self).custom == old(self).custom,
            final(self).pool.config == old(self).pool.config,
            final(self).pool.slots@ == crate::picked::picked(
                old(self).pool.slots@,
                crate::pool::outside_session(session_id@),
            ),
            r@ == crate::picked::picked(
                old(self).pool.slots@,
                crate::pool::inside_session(session_id@),
            ),
    {
        self.pool.cleanup_session(session_id)
    }

    /// Closes the input of every backend.
    pub fn shutdown(&mut self)
        requires
            old(self).pool.wf(),
        ensures
            final(self).pool.wf(),
            final(self).custom == old(self).custom,
            final(self).pool.config == old(self).pool.config,
            final(self).pool.slots@ == Seq::new(
                old(self).pool.slots@.len(),
                |i: int| crate::pool::closed_slot(old(self).pool.slots@[i]),
            ),
    {
        self.pool.shutdown();
    }

    /// Ends a reload: the new config is in force, and the custom tools are
    /// loaded anew if they changed.
    pub fn reload(&mut self, new_config: &Config, custom_changed: bool, process_env: &NameMap<
        String,
    >)
        ensures
            final(self).pool.config@ == new_config@,
            final(self).pool.config.servers.pairs() == new_config.servers.pairs(),
            final(self).pool.slots == old(self).pool.slots,
            custom_changed ==> final(self).custom.tools.pairs() == crate::picked::picked(
                new_config.custom_tools.pairs(),
                crate::custom_tools::in_use(process_env@),
            ),
            !custom_changed ==> final(self).custom == old(self).custom,
    {
        self.pool.finish_reload(new_config);
        if custom_changed {
            self.custom = CustomTools::new(&new_config.custom_tools, process_env);
        }
    }
}

// ---------------------------------------------------------------------------
// Laws
// ---------------------------------------------------------------------------

/// Resources and prompts are refused as unsupported methods, and so is every
/// method that is not one of the four that are served.
pub proof fn only_four_methods_are_served(method: Seq<char>, params: JsonView)
    requires
        method != "initialize"@,
        method != "notifications/initialized"@,
        method != "tools/list"@,
        method != "tools/call"@,
    ensures
        dispatched(method, params) matches DispatchView::Fail(e) && e is MethodNotFound,
{
}

/// A list of tools reports the servers that failed if and only if some did.
pub proof fn failures_are_reported(tools: Seq<ToolView>, errors: Seq<(Seq<char>, Seq<char>)>)
    ensures
        crate::json::member_of(list_json(tools, errors), "_errors"@) is Some == (errors.len() > 0),
        crate::json::member_of(list_json(tools, errors), "tools"@) is Some,
{
    reveal_strlit("_errors");
    reveal_strlit("tools");
    assert("_errors"@.len() != "tools"@.len());
}

/// A `tools/call` request with a text as the name of the tool is a call of that
/// tool with the arguments as they were sent, or null if none were.
pub proof fn tool_call_keeps_name_and_arguments(
    d: Dispatch,
    method: Seq<char>,
    params: JsonView,
    members: Map<Seq<char>, JsonView>,
    name: Seq<char>,
)
    requires
        d@ == dispatched(method, params),
        method == "tools/call"@,
        params == JsonView::Object(members),
        members.dom().contains("name"@),
        members["name"@] == JsonView::Str(name),
    ensures
        d matches Dispatch::CallTool { name: n, args: a } && n@ == name && a@ == (
        if members.dom().contains("arguments"@) {
            members["arguments"@]
        } else {
            JsonView::Null
        }),
{
    lemma_methods_differ();
}

/// A `tools/call` request fails, as one with wrong parameters, if and only if
/// it does not say the name of the tool as a text.
pub proof fn tool_call_needs_a_name(d: Dispatch, method: Seq<char>, params: JsonView)
    requires
        d@ == dispatched(method, params),
        method == "tools/call"@,
    ensures
        d is CallTool == (params matches JsonView::Object(m) && m.dom().contains("name"@)
            && m["name"@] is Str),
        d is CallTool || (d matches Dispatch::Fail(RpcError::InvalidParams(m)) && m@
            == "missing tool name"@),
{
    lemma_methods_differ();
}

/// What the other methods come to.
pub proof fn each_method_is_served_as_itself(d: Dispatch, method: Seq<char>, params: JsonView)
    requires
        d@ == dispatched(method, params),
    ensures
        method == "initialize"@ ==> (d matches Dispatch::Reply(v) && v@ is Object),
        method == "notifications/initialized"@ ==> (d matches Dispatch::Reply(v) && v@ is Null),
        (method == "tools/list"@) == (d is ListTools),
        d is CallTool ==> method == "tools/call"@,
{
    lemma_methods_differ();
}

/// A refused method is named in the error, but for resources and prompts, which
/// are refused as a whole.
pub proof fn refused_method_is_named(d: Dispatch, method: Seq<char>, params: JsonView)
    requires
        d@ == dispatched(method, params),
        method != "initialize"@,
        method != "notifications/initialized"@,
        method != "tools/list"@,
        method != "tools/call"@,
    ensures
        method == "resources/list"@ || method == "resources/read"@ ==> (d matches Dispatch::Fail(
            RpcError::MethodNotFound(m),
        ) && m@ == "resources are not supported by mcp-proxy"@),
        method == "prompts/list"@ || method == "prompts/get"@ ==> (d matches Dispatch::Fail(
            RpcError::MethodNotFound(m),
        ) && m@ == "prompts are not supported by mcp-proxy"@),
        method != "resources/list"@ && method != "resources/read"@ && method != "prompts/list"@
            && method != "prompts/get"@ ==> (d matches Dispatch::Fail(RpcError::MethodNotFound(m))
            && m@ == method),
{
    lemma_methods_differ();
}

/// The methods are different texts.
proof fn lemma_methods_differ()
    ensures
        "initialize"@ != "tools/list"@,
        "initialize"@ != "tools/call"@,
        "initialize"@ != "notifications/initialized"@,
        "tools/list"@ != "tools/call"@,
        "notifications/initialized"@ != "tools/list"@,
        "notifications/initialized"@ != "tools/call"@,
        "resources/list"@ != "prompts/list"@,
        "resources/list"@ != "prompts/get"@,
        "resources/read"@ != "prompts/list"@,
        "resources/read"@ != "prompts/get"@,
{
    reveal_strlit("initialize");
    reveal_strlit("tools/list");
    reveal_strlit("tools/call");
    reveal_strlit("notifications/initialized");
    reveal_strlit("resources/list");
    reveal_strlit("resources/read");
    reveal_strlit("prompts/list");
    reveal_strlit("prompts/get");
    assert("initialize"@[0] == 'i' && "tools/list"@[0] == 't' && "tools/call"@[0] == 't'
        && "notifications/initialized"@[0] == 'n' && "resources/list"@[0] == 'r'
        && "resources/read"@[0] == 'r' && "prompts/list"@[0] == 'p' && "prompts/get"@[0] == 'p');
    assert("tools/list"@[6] == 'l' && "tools/call"@[6] == 'c');
}

/// The list of tools has each tool in its place, and each failure in its place.
pub proof fn list_has_every_tool_in_order(
    tools: Seq<ToolView>,
    errors: Seq<(Seq<char>, Seq<char>)>,
    i: int,
)
    ensures
        ({
            let r = list_json(tools, errors);
            &&& crate::json::member_of(r, "tools"@) matches Some(JsonView::Array(items))
            &&& items.len() == tools.len()
            &&& 0 <= i < tools.len() ==> {
                let item = items[i];
                &&& crate::json::member_of(item, "name"@) == Some(JsonView::Str(tools[i].name))
                &&& crate::json::member_of(item, "description"@) == (match tools[i].description {
                    Some(d) => Some(JsonView::Str(d)),
                    None => None,
                })
                &&& crate::json::member_of(item, "inputSchema"@) == tools[i].input_schema
            }
        }),
{
    reveal_strlit("_errors");
    reveal_strlit("tools");
    reveal_strlit("name");
    reveal_strlit("description");
    reveal_strlit("inputSchema");
    assert("_errors"@.len() != "tools"@.len());
    assert("name"@.len() == 4 && "description"@.len() == 11 && "inputSchema"@.len() == 11);
    assert("description"@[0] == 'd' && "inputSchema"@[0] == 'i');
}

/// Each failure is listed in its place, with the server and the reason.
pub proof fn list_has_every_failure_in_order(
    tools: Seq<ToolView>,
    errors: Seq<(Seq<char>, Seq<char>)>,
    i: int,
)
    requires
        0 <= i < errors.len(),
    ensures
        ({
            let r = list_json(tools, errors);
            &&& crate::json::member_of(r, "_errors"@) matches Some(JsonView::Array(items))
            &&& items.len() == errors.len()
            &&& crate::json::member_of(items[i], "server"@) == Some(JsonView::Str(errors[i].0))
            &&& crate::json::member_of(items[i], "error"@) == Some(JsonView::Str(errors[i].1))
        }),
{
    reveal_strlit("_errors");
    reveal_strlit("tools");
    reveal_strlit("server");
    reveal_strlit("error");
    assert("_errors"@.len() != "tools"@.len());
    assert("server"@.len() != "error"@.len());
}

/// The answer to `initialize` says the protocol, the program and that there are
/// tools.
pub proof fn initialize_says_what_is_served()
    ensures
        crate::json::member_of(initialize_json(), "protocolVersion"@) == Some(
            JsonView::Str("2024-11-05"@),
        ),
        crate::json::member_of(initialize_json(), "capabilities"@) matches Some(c)
            && crate::json::member_of(c, "tools"@) is Some,
        crate::json::member_of(initialize_json(), "serverInfo"@) matches Some(s)
            && crate::json::member_of(s, "name"@) == Some(JsonView::Str("mcp-proxy"@))
            && crate::json::member_of(s, "version"@) == Some(JsonView::Str("0.1.0"@)),
{
    reveal_strlit("protocolVersion");
    reveal_strlit("capabilities");
    reveal_strlit("serverInfo");
    reveal_strlit("name");
    reveal_strlit("version");
    assert("protocolVersion"@.len() == 15 && "capabilities"@.len() == 12 && "serverInfo"@.len()
        == 10);
    assert("name"@.len() == 4 && "version"@.len() == 7);
}

/// A client sees the visible tools of backends and every custom tool, under its
/// name with `custom_` before it.
pub proof fn custom_tools_are_listed_too(
    servers: Seq<(Seq<char>, crate::config::ServerView)>,
    slots: Seq<Slot>,
    custom: Seq<(Seq<char>, crate::config::CustomToolView)>,
    client: crate::pool::Client,
    t: ToolView,
    i: int,
)
    ensures
        crate::pool::visible_tools(servers, slots, client).contains(t) ==> all_tools(
            servers,
            slots,
            custom,
            client,
        ).contains(t),
        0 <= i < custom.len() ==> exists|k: int|
            0 <= k < all_tools(servers, slots, custom, client).len() && (#[trigger] all_tools(
                servers,
                slots,
                custom,
                client,
            )[k]).name == "custom_"@ + custom[i].0,
        all_tools(servers, slots, custom, client).len() == crate::pool::visible_tools(
            servers,
            slots,
            client,
        ).len() + custom.len(),
{
    let a = crate::pool::visible_tools(servers, slots, client);
    let b = crate::custom_tools::custom_tool_views(custom);
    crate::picked::lemma_add_contains(a, b, t);
    if 0 <= i < custom.len() {
        assert((a + b)[a.len() + i] == b[i]);
        assert(all_tools(servers, slots, custom, client)[a.len() + i].name == "custom_"@
            + custom[i].0);
    }
}

/// A custom tool is called by its name, with `custom_` before it or without,
/// before any backend is asked, and touches no backend.
pub proof fn custom_tools_come_first(
    r: HubCall,
    name: Seq<char>,
    key: Seq<char>,
    args: JsonView,
    tools: Map<Seq<char>, crate::config::CustomToolView>,
    client: crate::pool::Client,
    limit: nat,
    before: BackendPool,
    after: BackendPool,
    now_ms: u64,
)
    requires
        hub_calls(r, name, args, tools, client, limit, before, after, now_ms),
        name == "custom_"@ + key || (name == key && !crate::text::begins(name, "custom_"@)),
    ensures
        r is Custom == tools.dom().contains(key),
        r is Custom ==> after == before,
{
    crate::custom_tools::prefixed_name_finds_the_tool(key);
}

} // verus!
