use mcp_proxy::backend::{Backend, Handshake, Stage};
use mcp_proxy::config::{Config, InstallConfig, ServerConfig, Sharing};
use mcp_proxy::json::Json;
use mcp_proxy::jsonrpc::RpcError;
use mcp_proxy::names::{Duplicate, NameMap};
use mcp_proxy::pool::entry::BackendKey;
use mcp_proxy::pool::env_key::{
    DEFAULT_ENV_KEY, ENV_KEY_PREFIX, backend_env_key, missing_env_keys, relevant_env_keys,
    sharing_env_key,
};
use mcp_proxy::pool::reap::idle_timeout;
use mcp_proxy::pool::{
    AfterCall, BackendPool, BackendProgress, CallStart, Ensured, boot_plan, failures, spawn_failed,
};
use mcp_proxy::util::fnv1a;

#[test]
fn failures_are_collected_in_order() {
    let outcomes = vec![
        ("a".to_string(), Err("no a".to_string())),
        ("b".to_string(), Ok(BackendKey::new("b", DEFAULT_ENV_KEY))),
        ("c".to_string(), Err("no c".to_string())),
    ];
    let found = failures(&outcomes);
    let pairs: Vec<(&str, &str)> = found.iter().map(|(n, e)| (n.as_str(), e.as_str())).collect();
    assert_eq!(pairs, vec![("a", "no a"), ("c", "no c")]);
    assert!(failures(&vec![]).is_empty());
}

fn names(pairs: &[(&str, &str)]) -> NameMap<String> {
    let mut m: NameMap<String> = NameMap::new();
    for (k, v) in pairs {
        m.insert(k.to_string(), v.to_string());
    }
    m
}

fn value(text: &str) -> Json {
    Json::parse(text).unwrap()
}

fn test_srv(env: Vec<(&str, &str)>, args: Vec<&str>, sharing: Sharing) -> ServerConfig {
    ServerConfig {
        command: "test".to_string(),
        args: args.into_iter().map(String::from).collect(),
        env: names(&env),
        shared: sharing,
        ..Default::default()
    }
}

#[test]
fn pool_relevant_env_keys_deduplicates() {
    let srv = test_srv(
        vec![("X", "${TOK}"), ("Y", "${TOK}")],
        vec![],
        Sharing::Session,
    );
    let keys = relevant_env_keys(&srv);
    assert_eq!(keys, vec!["TOK"]);
}

#[test]
fn pool_relevant_env_keys_from_args_and_env() {
    let srv = test_srv(vec![("X", "${A}")], vec!["--flag=${B}"], Sharing::Session);
    let keys = relevant_env_keys(&srv);
    assert_eq!(keys, vec!["A", "B"]);
}

#[test]
fn pool_backend_env_key_default_when_no_overrides() {
    let srv = test_srv(vec![("X", "${TOK}")], vec![], Sharing::Credentials);
    let key = backend_env_key(&srv, &names(&[]));
    assert_eq!(key, "__default__");
}

#[test]
fn pool_backend_env_key_hashes_when_overrides_present() {
    let srv = test_srv(vec![("X", "${TOK}")], vec![], Sharing::Credentials);
    let env = names(&[("TOK", "secret123")]);
    let key = backend_env_key(&srv, &env);
    assert!(key.starts_with("env:"), "expected env: prefix, got {key}");
}

#[test]
fn pool_backend_env_key_same_creds_same_hash() {
    let srv = test_srv(vec![("X", "${TOK}")], vec![], Sharing::Credentials);
    let env1 = names(&[("TOK", "abc")]);
    let env2 = names(&[("TOK", "abc")]);
    assert_eq!(backend_env_key(&srv, &env1), backend_env_key(&srv, &env2));
}

#[test]
fn pool_backend_env_key_different_creds_different_hash() {
    let srv = test_srv(vec![("X", "${TOK}")], vec![], Sharing::Credentials);
    let env1 = names(&[("TOK", "abc")]);
    let env2 = names(&[("TOK", "xyz")]);
    assert_ne!(backend_env_key(&srv, &env1), backend_env_key(&srv, &env2));
}

#[test]
fn pool_backend_env_key_ignores_irrelevant_overrides() {
    let srv = test_srv(vec![("X", "${TOK}")], vec![], Sharing::Credentials);
    let env = names(&[("TOK", "val"), ("UNRELATED", "noise")]);
    let key_with = backend_env_key(&srv, &env);
    let env2 = names(&[("TOK", "val")]);
    let key_without = backend_env_key(&srv, &env2);
    assert_eq!(key_with, key_without);
}

#[test]
fn env_key_relevant_env_keys_deduplicates() {
    let srv = test_srv(
        vec![("X", "${TOK}"), ("Y", "${TOK}")],
        vec![],
        Sharing::Session,
    );
    assert_eq!(relevant_env_keys(&srv), vec!["TOK"]);
}

#[test]
fn env_key_relevant_env_keys_from_args_and_env() {
    let srv = test_srv(vec![("X", "${A}")], vec!["--flag=${B}"], Sharing::Session);
    assert_eq!(relevant_env_keys(&srv), vec!["A", "B"]);
}

#[test]
fn env_key_backend_env_key_default_when_no_overrides() {
    let srv = test_srv(vec![("X", "${TOK}")], vec![], Sharing::Credentials);
    assert_eq!(backend_env_key(&srv, &names(&[])), DEFAULT_ENV_KEY);
}

#[test]
fn env_key_backend_env_key_hashes_when_overrides_present() {
    let srv = test_srv(vec![("X", "${TOK}")], vec![], Sharing::Credentials);
    let env = names(&[("TOK", "secret123")]);
    let key = backend_env_key(&srv, &env);
    assert!(
        key.starts_with(ENV_KEY_PREFIX),
        "expected env: prefix, got {key}"
    );
}

#[test]
fn env_key_backend_env_key_same_creds_same_hash() {
    let srv = test_srv(vec![("X", "${TOK}")], vec![], Sharing::Credentials);
    let env1 = names(&[("TOK", "abc")]);
    let env2 = names(&[("TOK", "abc")]);
    assert_eq!(backend_env_key(&srv, &env1), backend_env_key(&srv, &env2));
}

#[test]
fn env_key_backend_env_key_different_creds_different_hash() {
    let srv = test_srv(vec![("X", "${TOK}")], vec![], Sharing::Credentials);
    let env1 = names(&[("TOK", "abc")]);
    let env2 = names(&[("TOK", "xyz")]);
    assert_ne!(backend_env_key(&srv, &env1), backend_env_key(&srv, &env2));
}

#[test]
fn env_key_backend_env_key_ignores_irrelevant_overrides() {
    let srv = test_srv(vec![("X", "${TOK}")], vec![], Sharing::Credentials);
    let env = names(&[("TOK", "val"), ("UNRELATED", "noise")]);
    let env2 = names(&[("TOK", "val")]);
    assert_eq!(backend_env_key(&srv, &env), backend_env_key(&srv, &env2));
}

#[test]
fn deterministic() {
    assert_eq!(fnv1a("hello"), fnv1a("hello"));
    assert_ne!(fnv1a("hello"), fnv1a("world"));
}

#[test]
fn empty_string() {
    // Produces the FNV offset basis.
    assert_eq!(fnv1a(""), 0xcbf29ce484222325);
}

#[test]
fn fnv1a_of_a_letter() {
    assert_eq!(fnv1a("a"), 0xaf63dc4c8601ec8c);
}

#[test]
fn scopes_follow_the_sharing_mode() {
    let env = names(&[("TOK", "v")]);
    let session = test_srv(vec![("X", "${TOK}")], vec![], Sharing::Session);
    assert_eq!(sharing_env_key(&session, &env, "s1"), "session:s1");
    assert_eq!(sharing_env_key(&session, &env, "s2"), "session:s2");
    let global = test_srv(vec![("X", "${TOK}")], vec![], Sharing::Global);
    assert_eq!(sharing_env_key(&global, &env, "s1"), "__default__");
    let shared = test_srv(vec![("X", "${TOK}")], vec![], Sharing::Credentials);
    assert_eq!(sharing_env_key(&shared, &env, "s1"), sharing_env_key(&shared, &env, "s2"));
    assert_eq!(sharing_env_key(&shared, &env, "s1"), backend_env_key(&shared, &env));
}

#[test]
fn missing_variables_are_named() {
    let srv = test_srv(vec![("X", "${A}${B}")], vec!["${C}"], Sharing::Session);
    let missing = missing_env_keys(&srv, &names(&[("A", "1")]), &names(&[("C", "3")]));
    assert_eq!(missing, vec!["B"]);
}

// ---------------------------------------------------------------------------
// The pool
// ---------------------------------------------------------------------------

fn config_with(servers: Vec<(&str, ServerConfig)>) -> Config {
    let mut cfg = Config::default();
    for (name, srv) in servers {
        cfg.servers.insert(name.to_string(), srv);
    }
    cfg
}

fn fake(idle: Option<u64>) -> ServerConfig {
    ServerConfig {
        command: "python3".to_string(),
        shared: Sharing::Session,
        idle_timeout_secs: idle,
        ..Default::default()
    }
}

/// Starts the backend that `ensured` asks for, as the process would.
fn start(pool: &mut BackendPool, key: BackendKey, now: u64) {
    let srv = pool.config.servers.get(key.server.as_str()).unwrap().duplicate();
    let mut be = Backend::start(key.server.as_str(), &srv, &names(&[]));
    let listed = value(
        r#"{"tools":[{"name":"ping","description":"","inputSchema":{"type":"object"}}]}"#,
    );
    assert!(matches!(be.bring_up(Stage::List, &Ok(listed)), Handshake::Done));
    assert!(pool.insert_backend(key, be, &srv, now).is_none());
}

fn ensure(pool: &mut BackendPool, name: &str, session: &str, now: u64) {
    match pool.ensure_backend(name, &names(&[]), session, &names(&[]), now) {
        Ok(Ensured::Spawn(key)) => start(pool, key, now),
        Ok(Ensured::Present(_)) => {}
        Err(e) => panic!("{e}"),
    }
}

#[test]
fn reaped_backend_comes_back_on_tool_call() {
    let config = config_with(vec![("fake", fake(Some(1)))]);
    let mut pool = BackendPool::new(&config);
    ensure(&mut pool, "fake", "sess", 0);
    assert_eq!(pool.slots.len(), 1);
    assert!(pool.reap_once(1900).is_empty(), "one whole second is not more than one");
    let gone = pool.reap_once(2200);
    assert_eq!(gone.len(), 1);
    assert_eq!(pool.slots.len(), 0);
    match pool.start_call("fake_ping", &vec![], &names(&[]), "sess", &names(&[]), 2300) {
        CallStart::Spawn { route } => {
            assert_eq!(route.key.server, "fake");
            assert_eq!(route.key.scope, "session:sess");
            assert_eq!(route.stripped, "ping");
            ensure(&mut pool, "fake", "sess", 2300);
            let target = pool.call_again(&route, "fake_ping", 2300).unwrap();
            assert_eq!(target, "ping");
            let done = pool.finish_call(&route.key, Ok(value(r#"{"pid":1}"#))).unwrap();
            assert!(done.get("pid").is_some());
        }
        _ => panic!("expected a spawn"),
    }
    assert_eq!(pool.slots.len(), 1);
}

#[test]
fn touch_during_reap_spares_entry() {
    let config = config_with(vec![("fake", fake(Some(1)))]);
    let mut pool = BackendPool::new(&config);
    ensure(&mut pool, "fake", "sess", 0);
    let candidates = pool.reap_candidates(2200);
    assert_eq!(candidates.len(), 1);
    pool.slots[0].entry.touch(2200);
    assert!(pool.reap_confirmed(&candidates, 2200).is_empty());
    assert_eq!(pool.slots.len(), 1);
}

#[test]
fn global_backends_are_never_reaped() {
    let srv = ServerConfig { shared: Sharing::Global, idle_timeout_secs: Some(1), ..Default::default() };
    let config = config_with(vec![("memory", srv)]);
    let mut pool = BackendPool::new(&config);
    ensure(&mut pool, "memory", "s", 0);
    assert!(!pool.slots[0].entry.is_reapable());
    assert!(pool.reap_once(u64::MAX).is_empty());
    assert_eq!(pool.slots[0].entry.idle_secs(5000), None);
}

#[test]
fn idle_timeouts() {
    let config = config_with(vec![("a", fake(Some(7))), ("b", fake(None))]);
    assert_eq!(idle_timeout(&config, "a"), 7);
    assert_eq!(idle_timeout(&config, "b"), 900);
    assert_eq!(idle_timeout(&config, "gone"), 900);
}

#[test]
fn idle_seconds_are_whole() {
    let config = config_with(vec![("fake", fake(None))]);
    let mut pool = BackendPool::new(&config);
    ensure(&mut pool, "fake", "s", 1000);
    assert_eq!(pool.slots[0].entry.idle_secs(2999), Some(1));
    assert_eq!(pool.slots[0].entry.idle_secs(500), Some(0));
    pool.slots[0].entry.touch(3000);
    assert_eq!(pool.slots[0].entry.idle_secs(3000), Some(0));
}

#[test]
fn ensuring_names_what_is_wrong() {
    let srv = test_srv(vec![("X", "${TOK}")], vec![], Sharing::Session);
    let config = config_with(vec![("gh", srv)]);
    let mut pool = BackendPool::new(&config);
    let none = names(&[]);
    let Err(e) = pool.ensure_backend("nope", &none, "s", &none, 0) else {
        panic!("expected an error")
    };
    assert!(e.contains("nope"), "{e}");
    let Err(e) = pool.ensure_backend("gh", &none, "s", &none, 0) else {
        panic!("expected an error")
    };
    assert!(e.contains("TOK"), "{e}");
    assert!(pool.ensure_backend("gh", &names(&[("TOK", "t")]), "s", &none, 0).is_ok());
    assert!(pool.ensure_backend("gh", &none, "s", &names(&[("TOK", "t")]), 0).is_ok());
}

#[test]
fn only_global_servers_start_at_boot() {
    let global = ServerConfig { shared: Sharing::Global, ..Default::default() };
    let installed = ServerConfig {
        install: Some(InstallConfig::Npx),
        shared: Sharing::Session,
        ..Default::default()
    };
    let config = config_with(vec![
        ("memory", global),
        ("gh", installed),
        ("_off", ServerConfig { shared: Sharing::Global, ..Default::default() }),
    ]);
    let (keys, images) = boot_plan(&config, &names(&[]));
    assert_eq!(keys.len(), 1);
    assert_eq!(keys[0].server, "memory");
    assert_eq!(keys[0].scope, "__default__");
    assert_eq!(images, vec!["gh"]);
}

#[test]
fn the_longest_name_owns_a_tool() {
    let config = config_with(vec![("git", fake(None)), ("git_hub", fake(None))]);
    let pool = BackendPool::new(&config);
    let none = names(&[]);
    let (name, _srv) = pool.server_for_tool("git_hub_issue", &vec![], &none).unwrap();
    assert_eq!(name, "git_hub");
    let (name, _srv) = pool.server_for_tool("git_log", &vec![], &none).unwrap();
    assert_eq!(name, "git");
    assert!(pool.server_for_tool("git_", &vec![], &none).is_none());
    assert!(pool.server_for_tool("svn_log", &vec![], &none).is_none());
    let only = vec!["git".to_string()];
    let (name, _srv) = pool.server_for_tool("git_hub_issue", &only, &none).unwrap();
    assert_eq!(name, "git");
}

#[test]
fn a_dead_backend_is_evicted_and_the_call_tried_again() {
    let config = config_with(vec![("fake", fake(None))]);
    let mut pool = BackendPool::new(&config);
    ensure(&mut pool, "fake", "sess-a", 0);
    let none = names(&[]);
    let CallStart::Invoke { route, target } =
        pool.start_call("fake_ping", &vec![], &none, "sess-a", &none, 5)
    else {
        panic!("expected a call")
    };
    assert_eq!(target, "ping");
    let AfterCall::Retry(old) = pool.after_call(&route.key, true, Err("gone".to_string())) else {
        panic!("expected a retry")
    };
    assert_eq!(old.unwrap().key.scope, "session:sess-a");
    assert!(pool.slots.is_empty());
    assert!(matches!(
        pool.call_again(&route, "fake_ping", 6),
        Err(RpcError::ToolNotFound(ref t)) if t == "fake_ping"
    ));
    ensure(&mut pool, "fake", "sess-a", 7);
    assert_eq!(pool.call_again(&route, "fake_ping", 8).unwrap(), "ping");
}

#[test]
fn an_error_of_a_live_backend_ends_the_call() {
    let config = config_with(vec![("fake", fake(None))]);
    let mut pool = BackendPool::new(&config);
    ensure(&mut pool, "fake", "s", 0);
    let key = BackendKey::new("fake", "session:s");
    match pool.after_call(&key, false, Err("bad arguments".to_string())) {
        AfterCall::Done(Err(RpcError::Internal(m))) => assert_eq!(m, "bad arguments"),
        _ => panic!("expected the error"),
    }
    assert_eq!(pool.slots.len(), 1);
    assert!(matches!(
        spawn_failed("fake", "no such file"),
        RpcError::Internal(ref m) if m == "failed to spawn backend 'fake': no such file"
    ));
}

#[test]
fn aliases_are_called_by_their_original_name() {
    let srv = ServerConfig {
        tool_aliases: names(&[("p", "ping")]),
        ..fake(None)
    };
    let config = config_with(vec![("fake", srv)]);
    let mut pool = BackendPool::new(&config);
    ensure(&mut pool, "fake", "s", 0);
    let none = names(&[]);
    let CallStart::Invoke { target, .. } =
        pool.start_call("fake_p", &vec![], &none, "s", &none, 1)
    else {
        panic!("expected a call")
    };
    assert_eq!(target, "ping");
}

#[test]
fn progress_tells_of_tools_and_failures() {
    let config = config_with(vec![("fake", fake(None))]);
    let mut pool = BackendPool::new(&config);
    ensure(&mut pool, "fake", "s", 0);
    match pool.progress("fake", &Ok(BackendKey::new("fake", "session:s"))) {
        BackendProgress::Ready { server, tools } => {
            assert_eq!(server, "fake");
            assert_eq!(tools, 1);
        }
        BackendProgress::Failed { .. } => panic!("expected progress"),
    }
    match pool.progress("fake", &Err("boom".to_string())) {
        BackendProgress::Failed { server, error } => {
            assert_eq!(server, "fake");
            assert_eq!(error, "boom");
        }
        BackendProgress::Ready { .. } => panic!("expected a failure"),
    }
    assert_eq!(pool.requested_servers(&vec![], &names(&[])), vec!["fake"]);
    // A server that is asked for by name is tried, known or not.
    assert_eq!(pool.requested_servers(&vec!["other".to_string()], &names(&[])), vec!["other"]);
}

#[test]
fn reload_ends_what_is_gone_or_changed() {
    let old_config = config_with(vec![
        ("gone", fake(None)),
        ("same", fake(None)),
        ("changed", fake(None)),
    ]);
    let mut pool = BackendPool::new(&old_config);
    ensure(&mut pool, "gone", "s", 0);
    ensure(&mut pool, "same", "s", 0);
    ensure(&mut pool, "changed", "s", 0);
    let new_config = config_with(vec![
        ("same", fake(None)),
        ("changed", fake(Some(5))),
        ("added", ServerConfig { shared: Sharing::Global, ..Default::default() }),
    ]);
    let none = names(&[]);
    let reload = pool.begin_reload(&new_config, &none);
    let mut removed: Vec<&str> = reload.removed.iter().map(|s| s.key.server.as_str()).collect();
    removed.sort();
    assert!(removed.contains(&"gone"));
    assert!(!removed.contains(&"same"));
    assert!(pool.slots.iter().any(|s| s.key.server == "same"));
    assert!(!pool.slots.iter().any(|s| s.key.server == "gone"));
    assert!(reload.start.iter().any(|k| k.server == "added" && k.scope == "__default__"));
    let be = Backend::start("added", &ServerConfig::default(), &none);
    assert!(pool.reload_started(BackendKey::new("added", "__default__"), be, &new_config, 1).is_none());
    pool.finish_reload(&new_config);
    assert!(pool.config.servers.contains("added"));
    let again = pool.begin_reload(&new_config, &none);
    assert!(again.removed.is_empty());
    assert!(again.start.is_empty());
    assert!(!again.custom_changed);
}

#[test]
fn removing_and_shutting_down() {
    let config = config_with(vec![("a", fake(None)), ("b", fake(None))]);
    let mut pool = BackendPool::new(&config);
    ensure(&mut pool, "a", "s", 0);
    ensure(&mut pool, "b", "s", 0);
    let key = BackendKey::new("a", "session:s");
    assert!(pool.remove(&key).is_some());
    assert!(pool.remove(&key).is_none());
    pool.shutdown();
    assert!(pool.slots.iter().all(|s| !s.entry.backend.stdin_open));
}
