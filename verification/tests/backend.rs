use mcp_proxy::backend::{
    Backend, CallStep, Handshake, Stage, Tool, apply_tool_filters, call_request, capture_error, expand_args,
    initialize_request, launch, prefixed, restart_delay, runs_in_docker, spawn_error, tools_from,
};
use mcp_proxy::config::{InstallConfig, Runtime, ServerConfig};
use mcp_proxy::glob::glob_match;
use mcp_proxy::json::Json;
use mcp_proxy::jsonrpc::{Response, WireError};
use mcp_proxy::names::{Duplicate, NameMap};

fn names(pairs: &[(&str, &str)]) -> NameMap<String> {
    let mut m: NameMap<String> = NameMap::new();
    for (k, v) in pairs {
        m.insert(k.to_string(), v.to_string());
    }
    m
}

fn value(text: &str) -> Json {
    Json::parse(text).unwrap()
}

#[test]
fn glob_exact_match() {
    assert!(glob_match("read_file", "read_file"));
    assert!(!glob_match("read_file", "write_file"));
}

#[test]
fn glob_star_prefix() {
    assert!(glob_match("*_file", "read_file"));
    assert!(glob_match("*_file", "write_file"));
    assert!(!glob_match("*_file", "read_dir"));
}

#[test]
fn glob_star_suffix() {
    assert!(glob_match("read_*", "read_file"));
    assert!(glob_match("read_*", "read_dir"));
    assert!(!glob_match("read_*", "write_file"));
}

#[test]
fn glob_star_middle() {
    assert!(glob_match("read_*_v2", "read_file_v2"));
    assert!(!glob_match("read_*_v2", "read_file_v3"));
}

#[test]
fn glob_star_only() {
    assert!(glob_match("*", "anything"));
    assert!(glob_match("*", ""));
}

#[test]
fn glob_double_star() {
    assert!(glob_match("a*b*c", "aXbYc"));
    assert!(!glob_match("a*b*c", "aXbY"));
}

#[test]
fn glob_empty_pattern_matches_only_nothing() {
    assert!(glob_match("", ""));
    assert!(!glob_match("", "a"));
}

#[test]
fn glob_star_takes_back_what_it_took_too_early() {
    assert!(glob_match("*ab", "aab"));
    assert!(glob_match("a*bc", "abbbc"));
    assert!(!glob_match("a*bc", "abbb"));
}

fn tool(name: &str) -> Tool {
    Tool {
        name: format!("srv_{name}"),
        description: None,
        input_schema: None,
        original_name: name.to_string(),
    }
}

fn cfg_with(only: &[&str], except: &[&str], aliases: &[(&str, &str)]) -> ServerConfig {
    ServerConfig {
        command: "echo".to_string(),
        include_tools: only.iter().map(|s| s.to_string()).collect(),
        exclude_tools: except.iter().map(|s| s.to_string()).collect(),
        tool_aliases: names(aliases),
        ..Default::default()
    }
}

#[test]
fn filters_noop_when_no_rules() {
    let mut tools = vec![tool("read"), tool("write")];
    apply_tool_filters(&mut tools, "srv", &cfg_with(&[], &[], &[]));
    assert_eq!(tools.len(), 2);
}

#[test]
fn include_filter_keeps_only_matching() {
    let mut tools = vec![tool("read_file"), tool("write_file"), tool("list_dirs")];
    apply_tool_filters(&mut tools, "srv", &cfg_with(&["*_file"], &[], &[]));
    let names: Vec<&str> = tools.iter().map(|t| t.original_name.as_str()).collect();
    assert_eq!(names, vec!["read_file", "write_file"]);
}

#[test]
fn exclude_filter_removes_matching() {
    let mut tools = vec![tool("read_file"), tool("delete_file"), tool("list")];
    apply_tool_filters(&mut tools, "srv", &cfg_with(&[], &["delete_*"], &[]));
    let names: Vec<&str> = tools.iter().map(|t| t.original_name.as_str()).collect();
    assert_eq!(names, vec!["read_file", "list"]);
}

#[test]
fn include_then_exclude() {
    let mut tools = vec![
        tool("read_file"),
        tool("write_file"),
        tool("delete_file"),
        tool("ignored"),
    ];
    apply_tool_filters(
        &mut tools,
        "srv",
        &cfg_with(&["*_file"], &["delete_*"], &[]),
    );
    let names: Vec<&str> = tools.iter().map(|t| t.original_name.as_str()).collect();
    assert_eq!(names, vec!["read_file", "write_file"]);
}

#[test]
fn alias_adds_tool_with_prefixed_name() {
    let mut tools = vec![tool("search_repositories")];
    apply_tool_filters(
        &mut tools,
        "gh",
        &cfg_with(&[], &[], &[("search", "search_repositories")]),
    );
    assert_eq!(tools.len(), 2);
    let names: Vec<&str> = tools.iter().map(|t| t.name.as_str()).collect();
    assert!(names.contains(&"srv_search_repositories"));
    assert!(names.contains(&"gh_search"));
    // Alias preserves the original name so that calls are routed correctly.
    let alias_tool = tools.iter().find(|t| t.name == "gh_search").unwrap();
    assert_eq!(alias_tool.original_name, "search_repositories");
}

#[test]
fn alias_for_unknown_tool_is_ignored() {
    let mut tools = vec![tool("read")];
    apply_tool_filters(
        &mut tools,
        "srv",
        &cfg_with(&[], &[], &[("shortcut", "nonexistent")]),
    );
    assert_eq!(tools.len(), 1);
}

#[test]
fn alias_runs_after_filters() {
    // Excluded original tool: no alias.
    let mut tools = vec![tool("dangerous")];
    apply_tool_filters(
        &mut tools,
        "srv",
        &cfg_with(&[], &["dangerous"], &[("safe", "dangerous")]),
    );
    assert_eq!(tools.len(), 0, "alias should not resurrect excluded tool");
}

#[test]
fn tools_are_read_from_a_listing() {
    let listing = value(
        r#"{"tools":[{"name":"ping","description":"d","inputSchema":{"type":"object"}},
            {"description":"no name"},{"name":7},{"name":"bare"}]}"#,
    );
    let tools = tools_from(&listing, "fake");
    assert_eq!(tools.len(), 2);
    assert_eq!(tools[0].name, "fake_ping");
    assert_eq!(tools[0].original_name, "ping");
    assert_eq!(tools[0].description, Some("d".to_string()));
    assert_eq!(
        tools[0].input_schema.as_ref().unwrap().to_text(),
        r#"{"type":"object"}"#
    );
    assert_eq!(tools[1].name, "fake_bare");
    assert!(tools[1].description.is_none());
    assert!(tools[1].input_schema.is_none());
    assert!(tools_from(&value("{}"), "fake").is_empty());
    assert!(tools_from(&value(r#"{"tools":3}"#), "fake").is_empty());
}

#[test]
fn tools_carry_the_name_of_their_server() {
    assert_eq!(prefixed("gh", "issue"), "gh_issue");
    assert_ne!(prefixed("gh", "list"), prefixed("gl", "list"));
    assert_ne!(prefixed("gh", "a"), prefixed("gh", "b"));
    // Only a name that goes on behind another and `_` can collide with it.
    assert_eq!(prefixed("git", "hub_issue"), prefixed("git_hub", "issue"));
}

#[test]
fn only_installed_servers_run_in_docker() {
    let mut cfg = ServerConfig::default();
    assert!(!runs_in_docker(&cfg));
    cfg.install = Some(InstallConfig::Npx);
    assert!(runs_in_docker(&cfg));
    cfg.runtime = Runtime::Local;
    assert!(!runs_in_docker(&cfg));
}

#[test]
fn launch_expands_arguments_and_environment() {
    let cfg = ServerConfig {
        command: "srv".to_string(),
        args: vec!["--token=${TOK}".to_string(), "${HOME}/x".to_string()],
        env: names(&[("KEY", "k-${TOK}")]),
        ..Default::default()
    };
    let extra = names(&[("TOK", "t"), ("MORE", "m")]);
    let env = names(&[("HOME", "/home/u"), ("TOK", "process")]);
    let l = launch(&cfg, &extra, &env, 100).unwrap();
    assert!(!l.docker);
    assert_eq!(l.program, "srv");
    assert_eq!(l.args, vec!["--token=t", "/home/u/x"]);
    assert_eq!(l.env.get("KEY").unwrap(), "k-t");
    assert_eq!(l.env.get("MORE").unwrap(), "m");
}

#[test]
fn launch_gives_up_on_endless_expansion() {
    let args = vec!["${A}".to_string()];
    let extra = names(&[("A", "${A}")]);
    assert!(expand_args(&args, &extra, &names(&[]), 1000).is_none());
}

#[test]
fn spawn_errors_name_the_command() {
    assert_eq!(
        spawn_error("gh", "gh-server", "not found"),
        "failed to spawn 'gh': command 'gh-server' — not found\nhint: is 'gh-server' installed and on your PATH?"
    );
    assert_eq!(capture_error("gh", "stdin"), "[gh] failed to capture stdin");
}

fn backend(cfg: &ServerConfig) -> Backend {
    Backend::start("fake", cfg, &names(&[]))
}

#[test]
fn requests_are_numbered_and_answered() {
    let mut be = backend(&ServerConfig::default());
    assert_eq!(be.timeout_secs, 30);
    let (id, line) = be.begin_rpc("tools/list", value("{}")).unwrap();
    assert_eq!(id, 1);
    let sent = value(&line);
    assert_eq!(sent.uint_or_zero("id"), 1);
    assert_eq!(sent.text_or("method", ""), "tools/list");
    let (second, _line) = be.begin_rpc("tools/call", value("{}")).unwrap();
    assert_eq!(second, 2);
    let other = Response { id: Some(9), result: None, error: None };
    assert!(be.on_response(other).is_none());
    let nobody = Response { id: None, result: None, error: None };
    assert!(be.on_response(nobody).is_none());
    let answer = Response { id: Some(2), result: Some(value(r#"{"ok":true}"#)), error: None };
    let (to, outcome) = be.on_response(answer).unwrap();
    assert_eq!(to, 2);
    assert_eq!(outcome.unwrap().to_text(), r#"{"ok":true}"#);
    assert_eq!(be.pending, vec![1]);
    let failure = Response {
        id: Some(1),
        result: None,
        error: Some(WireError { code: -32601, message: "nope".to_string() }),
    };
    let (to, outcome) = be.on_response(failure).unwrap();
    assert_eq!(to, 1);
    assert_eq!(outcome.unwrap_err(), "nope");
    assert!(be.pending.is_empty());
}

#[test]
fn a_response_without_result_or_error_is_null() {
    let mut be = backend(&ServerConfig::default());
    let (id, _line) = be.begin_rpc("m", value("{}")).unwrap();
    let (_to, outcome) = be.on_response(Response { id: Some(id), result: None, error: None }).unwrap();
    assert!(matches!(outcome, Ok(Json::Null)));
}

#[test]
fn exit_fails_all_pending_requests() {
    let mut be = backend(&ServerConfig::default());
    be.begin_rpc("a", value("{}")).unwrap();
    be.begin_rpc("b", value("{}")).unwrap();
    let (failed, message) = be.on_exit();
    assert_eq!(failed, vec![1, 2]);
    assert_eq!(message, "[fake] backend process exited");
    assert!(be.has_crashed());
    assert_eq!(
        be.begin_rpc("c", value("{}")).unwrap_err(),
        "[fake] backend process has crashed — restart pending"
    );
}

#[test]
fn a_closed_input_refuses_requests() {
    let mut be = backend(&ServerConfig::default());
    be.kill();
    assert_eq!(
        be.begin_rpc("c", value("{}")).unwrap_err(),
        "[fake] stdin closed — backend may have crashed"
    );
    assert!(be.begin_notify("n", value("{}")).is_none());
}

#[test]
fn a_timeout_forgets_the_request() {
    let cfg = ServerConfig { timeout_secs: Some(7), ..Default::default() };
    let mut be = backend(&cfg);
    let (id, _line) = be.begin_rpc("tools/call", value("{}")).unwrap();
    assert_eq!(be.timed_out(id, "tools/call"), "[fake] tools/call timed out after 7s");
    assert!(be.pending.is_empty());
    let (id, _line) = be.begin_rpc("tools/call", value("{}")).unwrap();
    be.write_failed(id);
    assert!(be.pending.is_empty());
    assert_eq!(
        be.channel_dropped(),
        "[fake] response channel dropped — backend may have crashed"
    );
}

#[test]
fn notifications_have_no_id() {
    let be = backend(&ServerConfig::default());
    let line = be.begin_notify("notifications/initialized", value("{}")).unwrap();
    let sent = value(&line);
    assert_eq!(sent.text_or("method", ""), "notifications/initialized");
    assert!(sent.get("id").is_none());
}

#[test]
fn the_handshake_lists_and_filters_tools() {
    let cfg = cfg_with(&[], &["secret"], &[("p", "ping")]);
    let mut be = backend(&cfg);
    assert!(!be.ready);
    assert!(matches!(
        be.bring_up(Stage::Initialize, &Ok(value("{}"))),
        Handshake::Next(Stage::Notify)
    ));
    assert!(matches!(be.bring_up(Stage::Notify, &Ok(Json::Null)), Handshake::Next(Stage::List)));
    assert!(!be.ready);
    let listed = value(r#"{"tools":[{"name":"ping"},{"name":"secret"},{"name":1}]}"#);
    let mut raw = backend(&cfg);
    assert!(matches!(raw.handshake(Stage::List, &Ok(listed.duplicate())), Handshake::Done));
    let found: Vec<&str> = raw.tools.iter().map(|t| t.original_name.as_str()).collect();
    assert_eq!(found, vec!["ping", "secret"]);
    assert!(matches!(be.bring_up(Stage::List, &Ok(listed)), Handshake::Done));
    assert!(be.ready);
    let names: Vec<&str> = be.tools.iter().map(|t| t.name.as_str()).collect();
    assert_eq!(names, vec!["fake_ping", "fake_p"]);
}

#[test]
fn a_failed_listing_leaves_the_backend_ready() {
    let mut be = backend(&ServerConfig::default());
    assert!(matches!(be.bring_up(Stage::List, &Err("no list".to_string())), Handshake::Done));
    assert!(be.ready);
    assert!(be.tools.is_empty());
}

#[test]
fn a_failed_handshake_says_why() {
    let mut be = backend(&ServerConfig::default());
    match be.handshake(Stage::Initialize, &Err("boom".to_string())) {
        Handshake::Failed(e) => assert_eq!(
            e,
            "[fake] MCP handshake failed: boom\nhint: is '' a valid MCP server?"
        ),
        other => panic!("{other:?}"),
    }
    match be.handshake(Stage::Notify, &Err("broken pipe".to_string())) {
        Handshake::Failed(e) => assert_eq!(e, "broken pipe"),
        other => panic!("{other:?}"),
    }
    assert!(!be.ready);
    let methods: Vec<&str> =
        [Stage::Initialize, Stage::Notify, Stage::List].iter().map(|s| s.method()).collect();
    assert_eq!(methods, vec!["initialize", "notifications/initialized", "tools/list"]);
    assert_eq!(Stage::List.params().to_text(), "{}");
    assert_eq!(Stage::Initialize.params().text_or("protocolVersion", ""), "2024-11-05");
}

#[test]
fn restarts_back_off_and_end() {
    let secs: Vec<u64> = (0..7).map(restart_delay).collect();
    assert_eq!(secs, vec![1, 2, 4, 8, 16, 16, 16]);
    let cfg = ServerConfig { max_restarts: Some(1), ..Default::default() };
    let mut be = backend(&cfg);
    assert!(!be.needs_restart());
    be.on_exit();
    assert!(be.needs_restart());
    assert_eq!(be.try_restart().unwrap(), 1);
    be.begin_restart();
    assert!(!be.has_crashed());
    assert_eq!(be.restart_count, 1);
    be.respawned();
    assert!(be.stdin_open);
    be.on_exit();
    assert_eq!(
        be.try_restart().unwrap_err(),
        "[fake] max restarts (1) exceeded, giving up"
    );
}

#[test]
fn a_call_restarts_a_crashed_backend_first() {
    let cfg = ServerConfig { max_restarts: Some(1), ..Default::default() };
    let mut be = backend(&cfg);
    let args = value(r#"{"a":1}"#);
    let CallStep::Send { id, line } = be.call_tool("ping", &args) else {
        panic!("expected a request")
    };
    assert_eq!(id, 1);
    let sent = value(&line);
    assert_eq!(sent.text_or("method", ""), "tools/call");
    assert_eq!(sent.get("params").unwrap().to_text(), r#"{"arguments":{"a":1},"name":"ping"}"#);
    be.on_exit();
    assert!(matches!(be.call_tool("ping", &args), CallStep::Restart(1)));
    be.begin_restart();
    be.respawned();
    assert!(matches!(be.call_tool("ping", &args), CallStep::Send { id: 2, .. }));
    be.on_exit();
    let CallStep::Refused(e) = be.call_tool("ping", &args) else {
        panic!("expected a refusal")
    };
    assert_eq!(e, "[fake] max restarts (1) exceeded, giving up");
}

#[test]
fn no_restart_unless_wanted() {
    let cfg = ServerConfig { auto_restart: false, ..Default::default() };
    let mut be = backend(&cfg);
    be.on_exit();
    assert!(!be.needs_restart());
    let CallStep::Refused(e) = be.call_tool("ping", &value("{}")) else {
        panic!("expected a refusal")
    };
    assert_eq!(e, "[fake] backend process has crashed — restart pending");
}

#[test]
fn five_restarts_by_default() {
    let mut be = backend(&ServerConfig::default());
    be.restart_count = 4;
    assert_eq!(be.try_restart().unwrap(), 16);
    be.restart_count = 5;
    assert!(be.try_restart().is_err());
}

#[test]
fn a_process_that_stays_is_killed() {
    let mut be = backend(&ServerConfig::default());
    assert!(!be.kill_and_wait(true));
    assert!(be.kill_and_wait(false));
    assert!(!be.stdin_open);
}

#[test]
fn request_bodies() {
    let init = initialize_request();
    assert_eq!(init.text_or("protocolVersion", ""), "2024-11-05");
    assert_eq!(init.get("clientInfo").unwrap().text_or("name", ""), "mcp-proxy");
    let call = call_request("ping", value(r#"{"a":1}"#));
    assert_eq!(call.to_text(), r#"{"arguments":{"a":1},"name":"ping"}"#);
}
