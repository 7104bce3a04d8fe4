use mcp_proxy::backend::Tool;
use mcp_proxy::config::{Config, ProfileConfig, ProfilesFile, ServerConfig, ServerOverride};
use mcp_proxy::json::Json;
use mcp_proxy::jsonrpc::RpcError;
use mcp_proxy::names::NameMap;
use mcp_proxy::pool::BackendProgress;
use mcp_proxy::transport::bridge::{
    BridgePlan, Event, LineBuffer, Planned, Reaction, auto_env_keys, body_line, closing_headers,
    collect_env_overrides, message, on_head, plan, read_event, request_headers, send_error,
};
use mcp_proxy::transport::http::{
    Answer, ClientContext, Intake, RequestHeaders, SessionTable, handle_health, handle_mcp,
    handle_mcp_as, handle_mcp_delete, list_event, list_failed_event, progress_text, reply_head,
    single_body, split_servers, sse_event,
};
use mcp_proxy::transport::stdio::{Line, read_line, write_response};
use mcp_proxy::transport::{content_types, decode_env_header, encode_env_header, headers};

fn names(pairs: &[(&str, &str)]) -> NameMap<String> {
    let mut m: NameMap<String> = NameMap::new();
    for (k, v) in pairs {
        m.insert(k.to_string(), v.to_string());
    }
    m
}

fn value(text: &str) -> Json {
    Json::parse(text).unwrap()
}

fn no_headers() -> RequestHeaders {
    RequestHeaders { session: None, session_alias: None, env: None, servers: None }
}

fn in_session(id: &str) -> RequestHeaders {
    RequestHeaders { session: Some(id.to_string()), ..no_headers() }
}

#[test]
fn header_names() {
    assert_eq!(headers::SESSION_ID, "mcp-session-id");
    assert_eq!(headers::ENV, "x-mcp-env");
    assert_eq!(headers::SERVERS, "x-mcp-servers");
    assert_eq!(content_types::JSON, "application/json");
    assert_eq!(content_types::SSE, "text/event-stream");
}

#[test]
fn env_header_round_trip() {
    let env = names(&[("A", "1"), ("TOKEN", "s3cr\"et\n")]);
    let header = encode_env_header(&env).unwrap();
    let back = decode_env_header(&header);
    assert_eq!(back.len(), 2);
    assert_eq!(back.get("A").unwrap(), "1");
    assert_eq!(back.get("TOKEN").unwrap(), "s3cr\"et\n");
    let odd = names(&[("$serde_json::private::RawValue", "x"), ("A", "\"\n\u{e9}")]);
    let back = decode_env_header(&encode_env_header(&odd).unwrap());
    assert_eq!(back.len(), 2);
    assert_eq!(back.get("$serde_json::private::RawValue").unwrap(), "x");
    assert_eq!(back.get("A").unwrap(), "\"\n\u{e9}");
    assert!(encode_env_header(&names(&[])).is_none());
}

#[test]
fn env_header_is_base64_of_json() {
    assert_eq!(encode_env_header(&names(&[("A", "1")])).unwrap(), "eyJBIjoiMSJ9");
    assert_eq!(decode_env_header("eyJBIjoiMSJ9").get("A").unwrap(), "1");
}

#[test]
fn bad_env_headers_override_nothing() {
    assert!(decode_env_header("***").is_empty());
    // `[1]` and `{"A":1}` in base64.
    assert!(decode_env_header("WzFd").is_empty());
    assert!(decode_env_header("eyJBIjoxfQ==").is_empty());
}

#[test]
fn client_context_from_headers() {
    let ctx = ClientContext::from_headers(Some("eyJBIjoiMSJ9"), Some(" a, ,b ,"));
    assert_eq!(ctx.env_overrides.get("A").unwrap(), "1");
    assert_eq!(ctx.servers, vec!["a", "b"]);
    let ctx = ClientContext::from_headers(None, None);
    assert!(ctx.env_overrides.is_empty());
    assert!(ctx.servers.is_empty());
    assert_eq!(split_servers("x"), vec!["x"]);
    assert!(split_servers("").is_empty());
}

#[test]
fn a_request_without_a_session_opens_one() {
    let mut table = SessionTable::new();
    let req = value(r#"{"jsonrpc":"2.0","id":1,"method":"initialize"}"#);
    let Intake::Handle { session, request, answer, head, .. } =
        handle_mcp(&mut table, &no_headers(), &req, 5)
    else {
        panic!("expected to be handled")
    };
    assert_eq!(head.status, 200);
    assert!(head.has_body);
    assert_eq!(
        head.headers,
        vec![
            ("content-type".to_string(), "application/json".to_string()),
            ("mcp-session-id".to_string(), session.clone()),
        ]
    );
    let listing = reply_head(Answer::Stream, "s");
    assert_eq!(listing.headers[0].1, "text/event-stream");
    assert_eq!(listing.headers[1], ("mcp-session-id".to_string(), "s".to_string()));
    assert_eq!(session.len(), 36);
    assert_eq!(session.as_bytes()[14], b'4');
    assert_eq!(request.method, "initialize");
    assert_eq!(answer, Answer::Single);
    assert_eq!(table.len(), 1);
    let Intake::Handle { session: again, .. } =
        handle_mcp(&mut table, &in_session(&session), &req, 6)
    else {
        panic!("expected to be handled")
    };
    assert_eq!(again, session);
    assert_eq!(table.len(), 1);
    let note = value(r#"{"jsonrpc":"2.0","method":"notifications/initialized"}"#);
    let Intake::Handle { head, .. } = handle_mcp(&mut table, &in_session(&session), &note, 6)
    else {
        panic!("expected to be handled")
    };
    assert_eq!((head.status, head.headers.len(), head.has_body), (202, 0, false));
    let Intake::Handle { session: other, .. } = handle_mcp(&mut table, &no_headers(), &req, 7)
    else {
        panic!("expected to be handled")
    };
    assert_ne!(other, session);
}

#[test]
fn unknown_sessions_are_refused() {
    let mut table = SessionTable::new();
    let Intake::Refused(p) = handle_mcp(&mut table, &in_session("nope"), &value("{}"), 0) else {
        panic!("expected to be refused")
    };
    assert_eq!(p.status, 404);
    assert_eq!(p.body, "unknown session");
    assert_eq!(table.len(), 0);
}

#[test]
fn sessions_are_limited() {
    let mut table = SessionTable::new();
    for i in 0..100 {
        let id = format!("s{i}");
        handle_mcp_as(&mut table, &no_headers(), &value("{}"), &id, 0);
    }
    assert_eq!(table.len(), 100);
    let Intake::Refused(p) = handle_mcp(&mut table, &no_headers(), &value("{}"), 0) else {
        panic!("expected to be refused")
    };
    assert_eq!(p.status, 503);
    assert_eq!(p.body, "too many active sessions");
    assert!(matches!(
        handle_mcp(&mut table, &in_session("s7"), &value("{}"), 1),
        Intake::Handle { .. }
    ));
}

#[test]
fn the_other_session_header_is_read_too() {
    let mut table = SessionTable::new();
    handle_mcp_as(&mut table, &no_headers(), &value("{}"), "s", 0);
    let hdrs = RequestHeaders { session_alias: Some("s".to_string()), ..no_headers() };
    assert!(matches!(handle_mcp(&mut table, &hdrs, &value("{}"), 1), Intake::Handle { .. }));
}

#[test]
fn idle_sessions_expire() {
    let mut table = SessionTable::new();
    handle_mcp_as(&mut table, &no_headers(), &value("{}"), "old", 0);
    handle_mcp_as(&mut table, &no_headers(), &value("{}"), "new", 1000);
    assert!(table.expire(1_800_000).is_empty());
    assert_eq!(table.expire(1_800_001), vec!["old"]);
    assert_eq!(table.len(), 1);
    handle_mcp(&mut table, &in_session("new"), &value("{}"), 1_800_500);
    assert!(table.expire(3_600_500).is_empty());
    assert_eq!(table.expire(3_600_501), vec!["new"]);
}

#[test]
fn sessions_are_closed_once() {
    let mut table = SessionTable::new();
    handle_mcp_as(&mut table, &no_headers(), &value("{}"), "s", 0);
    let (p, ended) = handle_mcp_delete(&mut table, &in_session("s"));
    assert_eq!((p.status, p.body.as_str()), (200, "session closed"));
    assert_eq!(ended, Some("s".to_string()));
    let (p, ended) = handle_mcp_delete(&mut table, &in_session("s"));
    assert_eq!((p.status, p.body.as_str()), (404, "unknown session"));
    assert_eq!(ended, None);
    let (p, ended) = handle_mcp_delete(&mut table, &no_headers());
    assert_eq!((p.status, p.body.as_str()), (400, "missing mcp-session-id header"));
    assert_eq!(ended, None);
}

#[test]
fn answers_by_method_and_id() {
    let mut table = SessionTable::new();
    let answers: Vec<Answer> = [
        r#"{"method":"tools/list"}"#,
        r#"{"id":1,"method":"tools/list"}"#,
        r#"{"id":1,"method":"tools/call"}"#,
        r#"{"id":null,"method":"x"}"#,
    ]
    .iter()
    .map(|t| match handle_mcp(&mut table, &no_headers(), &value(t), 0) {
        Intake::Handle { answer, .. } => answer,
        Intake::Refused(_) => panic!("expected to be handled"),
    })
    .collect();
    assert_eq!(
        answers,
        vec![Answer::Accepted, Answer::Stream, Answer::Single, Answer::Single]
    );
}

#[test]
fn the_bridge_reads_what_the_hub_streams() {
    let ready = BackendProgress::Ready { server: "gh".to_string(), tools: 3 };
    let failed = BackendProgress::Failed { server: "x".to_string(), error: "a\nb".to_string() };
    let tool = Tool {
        name: "gh_t".to_string(),
        description: None,
        input_schema: None,
        original_name: "t".to_string(),
    };
    let mut stream = progress_text(&ready);
    stream.push_str(&progress_text(&failed));
    stream.push_str(&list_event(&value("1"), &vec![tool], &vec![]));
    let mut whole = LineBuffer::new();
    let events = whole.feed(&stream);
    assert_eq!(events.len(), 3);
    assert!(matches!(&events[0], Event::BackendReady { server, tools: 3 } if server == "gh"));
    assert!(
        matches!(&events[1], Event::BackendFailed { server, error } if server == "x" && error == "a\nb")
    );
    let Event::Forward(last) = &events[2] else { panic!("expected a message") };
    assert_eq!(value(last).uint_or_zero("id"), 1);
    // The same in pieces of three characters.
    let mut pieces = LineBuffer::new();
    let mut count: usize = 0;
    let chars: Vec<char> = stream.chars().collect();
    for piece in chars.chunks(3) {
        let text: String = piece.iter().collect();
        count += pieces.feed(&text).len();
    }
    assert_eq!(count, 3);
    assert_eq!(pieces.rest, whole.rest);
}

#[test]
fn stream_events() {
    assert_eq!(sse_event(&value(r#"{"a":1}"#)), "data: {\"a\":1}\n\n");
    assert_eq!(
        list_failed_event(&value("7"), "broken"),
        "data: {\"error\":{\"code\":-32000,\"message\":\"internal error: broken\"},\"id\":7,\"jsonrpc\":\"2.0\"}\n\n"
    );
    assert_eq!(
        single_body(&value("1"), Err(RpcError::ToolNotFound("g".to_string()))),
        r#"{"error":{"code":-32002,"message":"unknown tool: g"},"id":1,"jsonrpc":"2.0"}"#
    );
}

#[test]
fn health_of_the_transport() {
    let h = handle_health(value(r#"{"backends":[]}"#), 3000, 2);
    assert_eq!(
        h.to_text(),
        r#"{"backends":[],"port":3000,"sessions":2,"status":"ok","transport":"http"}"#
    );
    assert_eq!(handle_health(value("[]"), 3000, 2).to_text(), "[]");
}

#[test]
fn stdio_lines() {
    assert!(matches!(read_line("  \t "), Line::Blank));
    assert!(matches!(read_line("{oops"), Line::Bad));
    let Line::Request(r) = read_line(r#" {"id":3,"method":"m"} "#) else {
        panic!("expected a request")
    };
    assert_eq!(r.method, "m");
    assert_eq!(
        write_response(Some(&value("3")), Ok(value("null"))).unwrap(),
        r#"{"id":3,"jsonrpc":"2.0","result":null}"#
    );
    assert!(write_response(None, Ok(value("null"))).is_none());
}

// ---------------------------------------------------------------------------
// The bridge
// ---------------------------------------------------------------------------

fn config() -> Config {
    let mut cfg = Config::default();
    cfg.servers.insert(
        "gh".to_string(),
        ServerConfig {
            command: "gh".to_string(),
            env: names(&[("T", "${GITHUB_TOKEN}")]),
            args: vec!["--host=${HOST}".to_string()],
            ..Default::default()
        },
    );
    cfg
}

fn ready(p: Planned) -> BridgePlan {
    match p {
        Planned::Ready(plan) => plan,
        Planned::UnknownProfile(m) | Planned::NoServers(m) => panic!("{m}"),
        Planned::Unsettled => panic!("unsettled"),
    }
}

#[test]
fn the_bridge_forwards_what_the_config_refers_to() {
    let cfg = config();
    assert_eq!(auto_env_keys(&cfg), vec!["GITHUB_TOKEN", "HOST"]);
    let env = names(&[("GITHUB_TOKEN", "t"), ("OTHER", "o"), ("SECRET", "s")]);
    let collected = collect_env_overrides(&vec!["OTHER".to_string(), "NONE".to_string()], &env);
    assert_eq!(collected.len(), 1);
    let p = ready(plan(
        Some(&cfg),
        None,
        &ProfilesFile::default(),
        &vec![],
        &vec!["OTHER".to_string()],
        &env,
        100,
    ));
    assert_eq!(p.env.get("GITHUB_TOKEN").unwrap(), "t");
    assert_eq!(p.env.get("OTHER").unwrap(), "o");
    assert!(!p.env.contains("SECRET"));
    assert!(p.servers_header.is_none());
    let back = decode_env_header(p.env_header.as_ref().unwrap());
    assert_eq!(back.get("GITHUB_TOKEN").unwrap(), "t");
}

fn profiles() -> ProfilesFile {
    let mut p = ProfileConfig {
        included: vec!["gh".to_string(), "memory".to_string()],
        ..Default::default()
    };
    p.servers.insert(
        "gh".to_string(),
        ServerOverride {
            env: Some(names(&[("GITHUB_TOKEN", "${WORK}"), ("EXTRA", "x")])),
            ..Default::default()
        },
    );
    let mut pf = ProfilesFile::default();
    pf.profiles.insert("work".to_string(), p);
    pf
}

#[test]
fn a_profile_names_servers_and_adds_variables() {
    let env = names(&[("WORK", "w")]);
    let p = ready(plan(
        Some(&config()),
        Some("work"),
        &profiles(),
        &vec![],
        &vec![],
        &env,
        100,
    ));
    assert_eq!(p.servers_header.as_ref().unwrap(), "gh,memory");
    assert_eq!(split_servers(p.servers_header.as_ref().unwrap()), vec!["gh", "memory"]);
    assert_eq!(p.env.get("GITHUB_TOKEN").unwrap(), "w");
    assert_eq!(p.env.get("EXTRA").unwrap(), "x");
}

#[test]
fn a_profile_excludes_servers() {
    let none = names(&[]);
    let mut pf = profiles();
    let mut some = ProfileConfig::default();
    some.excluded = vec!["gh".to_string()];
    pf.profiles.insert("some".to_string(), some);
    let mut both = ProfileConfig::default();
    both.included = vec!["gh".to_string(), "memory".to_string()];
    both.excluded = vec!["gh".to_string()];
    pf.profiles.insert("both".to_string(), both);
    let mut nothing = ProfileConfig::default();
    nothing.included = vec!["gh".to_string()];
    nothing.excluded = vec!["gh".to_string()];
    pf.profiles.insert("nothing".to_string(), nothing);
    let mut cfg = config();
    for name in ["memory", "files", "_off"] {
        cfg.servers.insert(name.to_string(), ServerConfig::default());
    }
    let with = |name: &str, given: Vec<String>| {
        plan(Some(&cfg), Some(name), &pf, &given, &vec![], &none, 100)
    };
    assert_eq!(ready(with("some", vec![])).servers, vec!["memory", "files"]);
    assert_eq!(ready(with("both", vec![])).servers, vec!["memory"]);
    match with("nothing", vec![]) {
        Planned::NoServers(m) => assert_eq!(m, "profile 'nothing' leaves no servers"),
        _ => panic!("expected no servers"),
    }
    assert_eq!(ready(with("nothing", vec!["gh".to_string()])).servers, vec!["gh"]);
}

#[test]
fn given_servers_and_variables_win() {
    let env = names(&[("WORK", "w"), ("GITHUB_TOKEN", "mine")]);
    let p = ready(plan(
        Some(&config()),
        Some("work"),
        &profiles(),
        &vec!["only".to_string()],
        &vec![],
        &env,
        100,
    ));
    assert_eq!(p.servers, vec!["only"]);
    assert_eq!(p.env.get("GITHUB_TOKEN").unwrap(), "mine");
}

#[test]
fn planning_can_fail() {
    let none = names(&[]);
    assert!(matches!(
        plan(None, Some("nope"), &profiles(), &vec![], &vec![], &none, 100),
        Planned::UnknownProfile(_)
    ));
    let endless = names(&[("WORK", "${WORK}")]);
    assert!(matches!(
        plan(None, Some("work"), &profiles(), &vec![], &vec![], &endless, 100),
        Planned::Unsettled
    ));
}

#[test]
fn messages_carry_the_headers() {
    let p = BridgePlan {
        servers: vec![],
        env: names(&[]),
        env_header: Some("E".to_string()),
        servers_header: Some("a,b".to_string()),
    };
    let h = request_headers(&p, &Some("sid".to_string()));
    let pairs: Vec<(&str, &str)> = h.iter().map(|(k, v)| (k.as_str(), v.as_str())).collect();
    assert_eq!(
        pairs,
        vec![
            ("content-type", "application/json"),
            ("accept", "application/json, text/event-stream"),
            ("mcp-session-id", "sid"),
            ("x-mcp-env", "E"),
            ("x-mcp-servers", "a,b"),
        ]
    );
    assert!(message("   ").is_none());
    let m = message(" {\"id\":7} ").unwrap();
    assert_eq!(m.body, "{\"id\":7}");
    assert_eq!(m.id.to_text(), "7");
    assert!(matches!(message("oops").unwrap().id, Json::Null));
}

#[test]
fn heads_of_responses() {
    let mut session: Option<String> = None;
    let id = value("4");
    let r = on_head(&mut session, &id, false, "500 Internal Server Error", true, Some("s"), None);
    let Reaction::Failed(line) = r else { panic!("expected a failure") };
    assert_eq!(
        line,
        r#"{"error":{"code":-32000,"message":"hub returned HTTP 500 Internal Server Error"},"id":4,"jsonrpc":"2.0"}"#
    );
    assert_eq!(session, None);
    let r = on_head(&mut session, &id, true, "200 OK", true, Some("s"), Some("application/json"));
    assert!(matches!(r, Reaction::Body));
    assert_eq!(session, Some("s".to_string()));
    let r = on_head(
        &mut session,
        &id,
        true,
        "200 OK",
        false,
        None,
        Some("text/event-stream; charset=utf-8"),
    );
    assert!(matches!(r, Reaction::Stream));
    assert_eq!(session, Some("s".to_string()));
    let closing = closing_headers(&session).unwrap();
    assert_eq!(closing, vec![("mcp-session-id".to_string(), "s".to_string())]);
    assert!(closing_headers(&None).is_none());
    assert_eq!(
        send_error(&id, "refused"),
        r#"{"error":{"code":-32000,"message":"bridge error: refused"},"id":4,"jsonrpc":"2.0"}"#
    );
}

#[test]
fn lines_of_a_stream() {
    assert!(read_event("").is_none());
    assert!(read_event(": comment").is_none());
    assert!(read_event("data:  ").is_none());
    assert!(matches!(read_event("data: hello"), Some(Event::Forward(ref d)) if d == "hello"));
    assert!(matches!(
        read_event(r#"data: {"_progress":true,"status":"odd"}"#),
        Some(Event::OtherProgress)
    ));
    assert!(matches!(
        read_event(r#"data: {"_progress":true,"status":"ready"}"#),
        Some(Event::BackendReady { ref server, tools: 0 }) if server == "?"
    ));
    assert_eq!(body_line("  x \n"), Some("x".to_string()));
    assert_eq!(body_line(" \n"), None);
}
