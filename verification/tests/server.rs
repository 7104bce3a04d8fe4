use mcp_proxy::backend::{Backend, Handshake, Stage};
use mcp_proxy::config::{Config, CustomToolConfig, ServerConfig, Sharing};
use mcp_proxy::custom_tools::CustomCall;
use mcp_proxy::json::Json;
use mcp_proxy::jsonrpc::RpcError;
use mcp_proxy::names::{Duplicate, NameMap};
use mcp_proxy::pool::entry::BackendKey;
use mcp_proxy::pool::{AfterCall, CallStart, Ensured};
use mcp_proxy::server::{
    Dispatch, Hub, HubCall, MCP_PROTOCOL_VERSION, list_result, request_parts,
};

fn none() -> NameMap<String> {
    NameMap::new()
}

fn value(text: &str) -> Json {
    Json::parse(text).unwrap()
}

fn mock_config(idle: Option<u64>, max_restarts: Option<u32>) -> Config {
    let srv = ServerConfig {
        command: "python3".to_string(),
        shared: Sharing::Session,
        idle_timeout_secs: idle,
        max_restarts,
        ..Default::default()
    };
    let mut cfg = Config::default();
    cfg.servers.insert("fake".to_string(), srv);
    cfg
}

fn start(hub: &mut Hub, key: BackendKey, now: u64) {
    let srv = hub.pool.config.servers.get(key.server.as_str()).unwrap().duplicate();
    let mut be = Backend::start(key.server.as_str(), &srv, &none());
    let listed = value(
        r#"{"tools":[{"name":"ping","description":"","inputSchema":{"type":"object"}}]}"#,
    );
    assert!(matches!(be.bring_up(Stage::List, &Ok(listed)), Handshake::Done));
    hub.pool.insert_backend(key, be, &srv, now);
}

fn ensure(hub: &mut Hub, session: &str, now: u64) {
    if let Ok(Ensured::Spawn(key)) = hub.pool.ensure_backend("fake", &none(), session, &none(), now)
    {
        start(hub, key, now);
    }
}

/// Lists the tools as the transports do: the servers first, then the list.
fn list(hub: &mut Hub, session: &str, now: u64) -> Json {
    for server in hub.pool.requested_servers(&vec![], &none()) {
        assert_eq!(server, "fake");
        ensure(hub, session, now);
    }
    let tools = hub.list_tools_for(&vec![], &none(), session, &none(), now);
    list_result(&tools, &vec![])
}

/// Calls the tool with a process that answers `alive` times and then dies.
fn call(hub: &mut Hub, session: &str, dead: bool, now: u64) -> Result<Json, RpcError> {
    let begun = hub.call_tool_for(
        "fake_ping",
        &value("{}"),
        &vec![],
        &none(),
        session,
        &none(),
        100,
        now,
    );
    let HubCall::Backend(begun) = begun else {
        panic!("not a custom tool")
    };
    let route = match begun {
        CallStart::Refused(e) => return Err(e),
        CallStart::Invoke { route, .. } => {
            let answer = if dead { Err("gone".to_string()) } else { Ok(value(r#"{"pid":1}"#)) };
            match hub.pool.after_call(&route.key, dead, answer) {
                AfterCall::Done(outcome) => return outcome,
                AfterCall::Retry(_) => route,
            }
        }
        CallStart::Spawn { route } => route,
    };
    ensure(hub, session, now);
    hub.pool.call_again(&route, "fake_ping", now)?;
    hub.pool.finish_call(&route.key, Ok(value(r#"{"pid":2}"#)))
}

fn backends(hub: &Hub, now: u64) -> usize {
    hub.health(now).get("backends").unwrap().as_array().unwrap().len()
}

#[test]
fn tools_list_streaming_after_reap_respawns_for_same_session() {
    let mut hub = Hub::new(&mock_config(Some(1), None), &none());
    assert_eq!(list(&mut hub, "sess-a", 0).get("tools").unwrap().as_array().unwrap().len(), 1);
    assert_eq!(backends(&hub, 0), 1);
    hub.pool.reap_once(2200);
    assert_eq!(backends(&hub, 2200), 0);
    assert_eq!(list(&mut hub, "sess-a", 2300).get("tools").unwrap().as_array().unwrap().len(), 1);
}

#[test]
fn crashed_backend_recovers_for_same_session() {
    let mut hub = Hub::new(&mock_config(None, Some(0)), &none());
    call(&mut hub, "sess-a", false, 0).expect("first call should succeed");
    hub.pool.slots[0].entry.backend.on_exit();
    assert!(hub.pool.slots[0].entry.backend.needs_restart());
    assert!(hub.pool.slots[0].entry.backend.try_restart().is_err());
    assert!(call(&mut hub, "sess-b", false, 1).is_ok());
    assert!(call(&mut hub, "sess-a", true, 2).is_ok(), "the same session recovers too");
    assert_eq!(backends(&hub, 2), 2);
}

#[test]
fn tools_list_after_reap_respawns_for_same_session() {
    let mut hub = Hub::new(&mock_config(Some(1), None), &none());
    let first = list(&mut hub, "sess-a", 0);
    assert_eq!(first.get("tools").unwrap().as_array().unwrap().len(), 1);
    assert_eq!(backends(&hub, 0), 1);
    hub.pool.reap_once(2200);
    assert_eq!(backends(&hub, 2200), 0, "backend should have been reaped");
    let again = list(&mut hub, "sess-a", 2300);
    assert_eq!(again.get("tools").unwrap().as_array().unwrap().len(), 1);
}

fn empty_hub() -> Hub {
    Hub::new(&Config::default(), &none())
}

#[test]
fn initialize_returns_protocol_version() {
    let Dispatch::Reply(resp) = empty_hub().handle_request("initialize", &Json::Null) else {
        panic!("expected a reply")
    };
    assert_eq!(resp.text_or("protocolVersion", ""), MCP_PROTOCOL_VERSION);
    assert!(matches!(
        resp.get("capabilities").unwrap().get("tools").unwrap(),
        Json::Object(_)
    ));
    assert_eq!(resp.get("serverInfo").unwrap().text_or("name", ""), "mcp-proxy");
}

#[test]
fn initialized_notification_returns_null() {
    let answer = empty_hub().handle_request("notifications/initialized", &Json::Null);
    assert!(matches!(answer, Dispatch::Reply(Json::Null)));
}

#[test]
fn unknown_method_returns_method_not_found() {
    let answer = empty_hub().handle_request("nope/nope", &Json::Null);
    assert!(matches!(answer, Dispatch::Fail(RpcError::MethodNotFound(_))));
}

#[test]
fn resources_and_prompts_rejected() {
    let hub = empty_hub();
    for method in [
        "resources/list",
        "resources/read",
        "prompts/list",
        "prompts/get",
    ] {
        let answer = hub.handle_request(method, &Json::Null);
        assert!(matches!(answer, Dispatch::Fail(RpcError::MethodNotFound(_))), "{method}");
    }
}

#[test]
fn tools_call_missing_name_is_invalid_params() {
    let answer = empty_hub().handle_request("tools/call", &value("{}"));
    assert!(matches!(answer, Dispatch::Fail(RpcError::InvalidParams(_))));
}

#[test]
fn tools_call_unknown_tool_returns_tool_not_found() {
    let mut hub = empty_hub();
    let Dispatch::CallTool { name, args } =
        hub.handle_request("tools/call", &value(r#"{"name": "ghost_do_thing"}"#))
    else {
        panic!("expected a call")
    };
    let begun =
        hub.call_tool_for(name.as_str(), &args, &vec![], &none(), "sess", &none(), 100, 0);
    assert!(matches!(
        begun,
        HubCall::Backend(CallStart::Refused(RpcError::ToolNotFound(_)))
    ));
}

#[test]
fn cleanup_session_kills_only_that_session() {
    let mut hub = Hub::new(&mock_config(None, None), &none());
    for sid in ["sess-a", "sess-b"] {
        call(&mut hub, sid, false, 0).unwrap();
    }
    assert_eq!(backends(&hub, 0), 2);
    let gone = hub.cleanup_session("sess-a");
    assert_eq!(gone.len(), 1);
    let health = hub.health(0);
    let left = health.get("backends").unwrap().as_array().unwrap();
    assert_eq!(left.len(), 1);
    assert_eq!(left[0].text_or("scope", ""), "session");
    assert_eq!(health.uint_or_zero("session_count"), 1);
    call(&mut hub, "sess-a", false, 1).expect("respawn after cleanup");
    assert_eq!(backends(&hub, 1), 2);
}

#[test]
fn tools_list_and_call_end_to_end() {
    let mut hub = Hub::new(&mock_config(None, None), &none());
    let listing = list(&mut hub, "sess", 0);
    let tools = listing.get("tools").unwrap().as_array().unwrap();
    assert_eq!(tools.len(), 1);
    assert_eq!(tools[0].text_or("name", ""), "fake_ping");
    let result = call(&mut hub, "sess", false, 1).unwrap();
    assert!(result.get("pid").is_some());
    hub.shutdown();
}

#[test]
fn failures_stand_beside_the_tools() {
    let listing = list_result(&vec![], &vec![("gh".to_string(), "boom".to_string())]);
    assert_eq!(listing.to_text(), r#"{"_errors":[{"error":"boom","server":"gh"}],"tools":[]}"#);
    assert_eq!(list_result(&vec![], &vec![]).to_text(), r#"{"tools":[]}"#);
}

#[test]
fn requests_are_taken_apart() {
    let r = request_parts(&value(r#"{"id":null,"method":"m","params":[1]}"#));
    assert_eq!(r.method, "m");
    assert_eq!(r.params.to_text(), "[1]");
    assert!(matches!(r.id, Some(Json::Null)));
    let r = request_parts(&value(r#"{"method":3}"#));
    assert_eq!(r.method, "");
    assert!(matches!(r.params, Json::Null));
    assert!(r.id.is_none());
}

fn custom(command: &str) -> CustomToolConfig {
    CustomToolConfig::Shell {
        description: "d".to_string(),
        input_schema: value(r#"{"type":"object"}"#),
        command: command.to_string(),
        env_toggle: None,
    }
}

#[test]
fn custom_tools_come_first() {
    let mut cfg = mock_config(None, None);
    cfg.custom_tools.insert("ping".to_string(), custom("ping -c 1 {{host}}"));
    let mut hub = Hub::new(&cfg, &none());
    let tools = hub.list_tools_for(&vec![], &none(), "s", &none(), 0);
    assert_eq!(tools.len(), 1);
    assert_eq!(tools[0].name, "custom_ping");
    let begun = hub.call_tool_for(
        "custom_ping",
        &value(r#"{"host":"example.org"}"#),
        &vec![],
        &none(),
        "s",
        &none(),
        100,
        0,
    );
    match begun {
        HubCall::Custom(CustomCall::Shell { command }) => {
            assert_eq!(command, "ping -c 1 example.org");
        }
        _ => panic!("expected a shell command"),
    }
}

#[test]
fn a_reload_replaces_the_custom_tools() {
    let mut hub = empty_hub();
    let mut cfg = Config::default();
    cfg.custom_tools.insert("new".to_string(), custom("true"));
    let reload = hub.pool.begin_reload(&cfg, &none());
    assert!(reload.custom_changed);
    hub.reload(&cfg, reload.custom_changed, &none());
    assert!(hub.custom.has("custom_new"));
}
