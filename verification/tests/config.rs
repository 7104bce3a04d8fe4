use mcp_proxy::cli::{Transport, active_profile, read_assignment, transport_named};
use mcp_proxy::commands::serve::served_config;
use mcp_proxy::config::{
    Config, CustomToolConfig, InstallConfig, ProfileConfig, ProfilesFile, Runtime, ServerConfig,
    ServerOverride, Sharing, UserConfig, default_config_path, default_true,
    expand_env_with_overrides, expand_env_within, extract_var_names, is_default_runtime,
    is_server_disabled, is_toggled_off, is_true, join_path, list_profiles, profiles_path,
    read_active_profile, resolve_env, user_config_path, write_active_profile,
};
use mcp_proxy::json::Json;
use mcp_proxy::names::{Duplicate, NameMap, SameView};

fn names(pairs: &[(&str, &str)]) -> NameMap<String> {
    let mut m: NameMap<String> = NameMap::new();
    for (k, v) in pairs {
        m.insert(k.to_string(), v.to_string());
    }
    m
}

fn none() -> NameMap<String> {
    NameMap::new()
}

#[test]
fn expand_env_no_vars() {
    let out = expand_env_with_overrides("plain text", &none(), &none());
    assert_eq!(out, "plain text");
}

#[test]
fn expand_env_with_override() {
    let ovr = names(&[("MY_VAR", "hello")]);
    let out = expand_env_with_overrides("prefix_${MY_VAR}_suffix", &ovr, &none());
    assert_eq!(out, "prefix_hello_suffix");
}

#[test]
fn expand_env_multiple_vars() {
    let ovr = names(&[("A", "1"), ("B", "2")]);
    let out = expand_env_with_overrides("${A}+${B}", &ovr, &none());
    assert_eq!(out, "1+2");
}

#[test]
fn expand_env_missing_var_is_empty() {
    let out = expand_env_with_overrides("${__TEST_MISSING_VAR__}", &none(), &none());
    assert_eq!(out, "");
}

#[test]
fn expand_env_prefers_overrides_to_the_process() {
    let ovr = names(&[("A", "mine")]);
    let env = names(&[("A", "theirs"), ("B", "b")]);
    assert_eq!(expand_env_with_overrides("${A}/${B}", &ovr, &env), "mine/b");
}

#[test]
fn expand_env_leaves_an_open_brace() {
    assert_eq!(expand_env_with_overrides("a ${B", &none(), &none()), "a ${B");
}

#[test]
fn expand_env_expands_what_a_value_brings() {
    let ovr = names(&[("A", "<${B}>"), ("B", "b")]);
    assert_eq!(expand_env_with_overrides("${A}", &ovr, &none()), "<b>");
}

#[test]
fn expand_env_within_a_limit() {
    let ovr = names(&[("A", "1"), ("B", "2"), ("L", "${L}")]);
    assert_eq!(expand_env_within("${A}${B}", &ovr, &none(), 2), Some("12".to_string()));
    assert_eq!(expand_env_within("${A}${B}", &ovr, &none(), 1), None);
    assert_eq!(expand_env_within("${L}", &ovr, &none(), 1000), None);
}

#[test]
fn is_toggled_off_none() {
    assert!(!is_toggled_off(None, &none()));
}

#[test]
fn is_toggled_off_false() {
    let env = names(&[("__TEST_TOGGLE_F__", "false")]);
    assert!(is_toggled_off(Some("__TEST_TOGGLE_F__"), &env));
}

#[test]
fn is_toggled_off_zero() {
    let env = names(&[("__TEST_TOGGLE_Z__", "0")]);
    assert!(is_toggled_off(Some("__TEST_TOGGLE_Z__"), &env));
}

#[test]
fn is_toggled_off_true_means_on() {
    let env = names(&[("__TEST_TOGGLE_T__", "true")]);
    assert!(!is_toggled_off(Some("__TEST_TOGGLE_T__"), &env));
}

#[test]
fn sharing_default_is_session() {
    assert_eq!(Sharing::default(), Sharing::Session);
}

#[test]
fn defaults_are_recognised() {
    assert!(Sharing::Session.is_default());
    assert!(!Sharing::Global.is_default());
    assert!(is_default_runtime(&Runtime::Docker));
    assert!(!is_default_runtime(&Runtime::Local));
    assert!(default_true());
    assert!(is_true(&true));
    assert!(!is_true(&false));
    assert_eq!(Runtime::default(), Runtime::Docker);
}

#[test]
fn extract_var_names_basic() {
    assert_eq!(extract_var_names("--token=${TOKEN}"), vec!["TOKEN"]);
}

#[test]
fn extract_var_names_multiple() {
    assert_eq!(extract_var_names("${A}_${B}_plain"), vec!["A", "B"]);
}

#[test]
fn extract_var_names_none() {
    assert!(extract_var_names("no vars here").is_empty());
}

#[test]
fn overrides_merge_onto_the_base() {
    let base = ServerConfig {
        command: "base".to_string(),
        args: vec!["a".to_string()],
        env: names(&[("K", "old"), ("ONLY", "base")]),
        timeout_secs: Some(9),
        ..Default::default()
    };
    let ovr = ServerOverride {
        args: Some(vec!["b".to_string()]),
        env: Some(names(&[("K", "new"), ("X", "x")])),
        runtime: Some(Runtime::Local),
        ..Default::default()
    };
    let m = ovr.apply_to(&base);
    assert_eq!(m.command, "base");
    assert_eq!(m.args, vec!["b"]);
    assert_eq!(m.runtime, Runtime::Local);
    assert_eq!(m.env.get("K").unwrap(), "new");
    assert_eq!(m.env.get("ONLY").unwrap(), "base");
    assert_eq!(m.env.get("X").unwrap(), "x");
    assert_eq!(m.timeout_secs, Some(9));
    assert!(ovr.apply_to(&m).same(&m));
    assert!(ServerOverride::default().apply_to(&base).same(&base));
}

#[test]
fn only_an_override_with_a_command_is_a_server() {
    assert!(ServerOverride::default().as_server().is_none());
    let ovr = ServerOverride { command: Some("c".to_string()), ..Default::default() };
    let srv = ovr.as_server().unwrap();
    assert_eq!(srv.command, "c");
    assert!(srv.auto_restart);
}

#[test]
fn client_variables_win_over_config_variables() {
    let cfg = names(&[("A", "${T}"), ("B", "b")]);
    let ovr = names(&[("T", "t"), ("B", "client")]);
    let env = resolve_env(&cfg, &ovr, &none(), 10).unwrap();
    assert_eq!(env.get("A").unwrap(), "t");
    assert_eq!(env.get("B").unwrap(), "client");
    assert_eq!(env.get("T").unwrap(), "t");
    assert!(resolve_env(&names(&[("L", "${L}")]), &names(&[("L", "${L}")]), &none(), 5).is_none());
}

#[test]
fn servers_are_disabled_by_name_or_toggle() {
    let env = names(&[("OFF", "FALSE")]);
    let mut srv = ServerConfig::default();
    assert!(!is_server_disabled("a", &srv, &env));
    assert!(is_server_disabled("_a", &srv, &env));
    srv.env_toggle = Some("OFF".to_string());
    assert!(is_server_disabled("a", &srv, &env));
    let mut cfg = Config::default();
    cfg.servers.insert("a".to_string(), ServerConfig::default());
    cfg.servers.insert("_b".to_string(), ServerConfig::default());
    cfg.servers.insert("c".to_string(), srv);
    assert_eq!(cfg.active_server_names(&env), vec!["a"]);
}

#[test]
fn paths() {
    assert_eq!(join_path("/a", "b"), "/a/b");
    assert_eq!(join_path("/a/", "b"), "/a/b");
    assert_eq!(join_path("", "b"), "b");
    assert_eq!(profiles_path(Some("/etc")), "/etc/profiles.json");
    assert_eq!(profiles_path(None), "./profiles.json");
    assert_eq!(profiles_path(Some("")), "profiles.json");
    assert_eq!(default_config_path(Some("/home/u")), "/home/u/.config/mcp-proxy/servers.json");
    assert_eq!(default_config_path(None), "./.config/mcp-proxy/servers.json");
    assert_eq!(user_config_path(Some("/home/u")), "/home/u/.config/mcp-proxy/config.json");
}

#[test]
fn profiles_are_listed_with_descriptions() {
    let mut pf = ProfilesFile::default();
    pf.profiles.insert(
        "work".to_string(),
        ProfileConfig { description: Some("Work".to_string()), ..Default::default() },
    );
    pf.profiles.insert("home".to_string(), ProfileConfig::default());
    assert_eq!(list_profiles(&pf), vec![("work", Some("Work")), ("home", None)]);
}

#[test]
fn a_profile_is_served() {
    let mut cfg = Config::default();
    for name in ["gh", "memory", "files"] {
        cfg.servers.insert(
            name.to_string(),
            ServerConfig { command: name.to_string(), ..Default::default() },
        );
    }
    let mut p = ProfileConfig::default();
    p.included = vec!["gh".to_string(), "memory".to_string()];
    p.excluded = vec!["memory".to_string()];
    for (name, command) in [("gh", None), ("own", Some("own-server")), ("other", None)] {
        p.servers.insert(
            name.to_string(),
            ServerOverride {
                command: command.map(String::from),
                env: Some(names(&[("A", "1")])),
                ..Default::default()
            },
        );
    }
    let mut pf = ProfilesFile::default();
    pf.profiles.insert("work".to_string(), p);
    let served = served_config(cfg.duplicate(), Some("work"), &pf).ok().unwrap();
    assert_eq!(served.servers.len(), 2);
    let gh = served.servers.get("gh").unwrap();
    assert_eq!((gh.command.as_str(), gh.env.get("A").unwrap().as_str()), ("gh", "1"));
    assert_eq!(served.servers.get("own").unwrap().command, "own-server");
    assert_eq!(served_config(cfg.duplicate(), None, &pf).ok().unwrap().servers.len(), 3);
    assert_eq!(
        served_config(cfg, Some("nope"), &pf).err().unwrap(),
        "unknown local profile: nope"
    );
}

#[test]
fn the_active_profile_is_kept() {
    let mut cfg = UserConfig::default();
    assert_eq!(read_active_profile(&cfg), None);
    write_active_profile(&mut cfg, Some("work"));
    assert_eq!(read_active_profile(&cfg), Some("work".to_string()));
    write_active_profile(&mut cfg, None);
    assert_eq!(read_active_profile(&cfg), None);
}

#[test]
fn a_given_profile_wins_over_the_saved_one() {
    let saved = Some("saved".to_string());
    assert_eq!(active_profile(&Some("given".to_string()), &saved), Some("given".to_string()));
    assert_eq!(active_profile(&None, &saved), saved);
    assert_eq!(active_profile(&None, &None), None);
}

#[test]
fn transports() {
    assert_eq!(transport_named("stdio"), Transport::Stdio);
    assert_eq!(transport_named("http"), Transport::Http);
    assert_eq!(transport_named("other"), Transport::Http);
}

#[test]
fn assignments() {
    assert_eq!(read_assignment("A=b=c"), Ok(("A".to_string(), "b=c".to_string())));
    assert_eq!(read_assignment("A="), Ok(("A".to_string(), "".to_string())));
    assert_eq!(read_assignment("A"), Err("expected KEY=VALUE, got 'A'".to_string()));
}

#[test]
fn custom_tool_parts() {
    let t = CustomToolConfig::Shell {
        description: "d".to_string(),
        input_schema: Json::Null,
        command: "true".to_string(),
        env_toggle: Some("T".to_string()),
    };
    assert_eq!(t.description(), "d");
    assert!(matches!(t.input_schema(), Json::Null));
    assert_eq!(t.env_toggle(), Some("T"));
}

#[test]
fn configs_compare_by_content() {
    let a = ServerConfig {
        command: "c".to_string(),
        install: Some(InstallConfig::Npm { package: "p".to_string() }),
        env: names(&[("A", "1"), ("B", "2")]),
        ..Default::default()
    };
    let mut b = a.duplicate();
    assert!(a.same(&b));
    b.env = names(&[("B", "2"), ("A", "1")]);
    assert!(a.same(&b));
    b.env.insert("A".to_string(), "3".to_string());
    assert!(!a.same(&b));
}

#[test]
fn name_maps_keep_the_first_place_of_a_name() {
    let mut m = names(&[("a", "1"), ("b", "2")]);
    m.insert("a".to_string(), "3".to_string());
    assert_eq!(m.len(), 2);
    assert_eq!(m.name_at(0), "a");
    assert_eq!(m.value_at(0), "3");
    assert_eq!(m.remove("a"), Some("3".to_string()));
    assert_eq!(m.remove("a"), None);
    assert!(!m.contains("a"));
    assert_eq!(m.name_at(0), "b");
    m.insert("c".to_string(), "4".to_string());
    m.remove("c");
    assert_eq!(m.len(), 1);
}
