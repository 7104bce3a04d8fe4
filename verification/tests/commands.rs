use mcp_proxy::backend::Tool;
use mcp_proxy::cli::{ProfileCmd, ServerCmd};
use mcp_proxy::clients::{
    ClientDef, install, is_available, is_installed, known_clients, mcp_entry,
    read_config, uninstall,
};
use mcp_proxy::commands::clients::{Action, done_line, label, plan};
use mcp_proxy::commands::health::{describe_idle, health_url, no_answer, refused, report};
use mcp_proxy::commands::profile;
use mcp_proxy::commands::serve::{Debounce, Wake, init_line, is_relevant, starter_lines};
use mcp_proxy::commands::server;
use mcp_proxy::commands::test::{failed, opening, passed, summary, targets, testing};
use mcp_proxy::config::{
    Config, InstallConfig, ProfilesFile, Runtime, ServerConfig, UserConfig,
};
use mcp_proxy::json::Json;
use mcp_proxy::names::NameMap;

fn names(pairs: &[(&str, &str)]) -> NameMap<String> {
    let mut m: NameMap<String> = NameMap::new();
    for (k, v) in pairs {
        m.insert(k.to_string(), v.to_string());
    }
    m
}

fn value(text: &str) -> Json {
    Json::parse(text).unwrap()
}

// ---------------------------------------------------------------------------
// Servers
// ---------------------------------------------------------------------------

fn add(name: &str) -> ServerCmd {
    ServerCmd::Add {
        name: name.to_string(),
        command: "cmd".to_string(),
        args: vec!["stdio".to_string()],
        env: vec![("A".to_string(), "1".to_string()), ("A".to_string(), "2".to_string())],
        npm: Some("pkg".to_string()),
        pip: Some("ignored".to_string()),
        runtime: Some("local".to_string()),
    }
}

#[test]
fn servers_are_added_edited_and_removed() {
    let mut cfg = Config::default();
    let done = server::run(&mut cfg, &ServerCmd::List).unwrap();
    assert_eq!(done.lines, vec!["no servers configured"]);
    assert!(!done.changed);
    let done = server::run(&mut cfg, &add("gh")).unwrap();
    assert_eq!(done.lines, vec!["✅ added server 'gh'"]);
    assert!(done.changed);
    let srv = cfg.servers.get("gh").unwrap();
    assert_eq!(srv.command, "cmd");
    assert_eq!(srv.env.get("A").unwrap(), "2");
    assert_eq!(srv.runtime, Runtime::Local);
    assert!(srv.auto_restart);
    assert!(matches!(&srv.install, Some(InstallConfig::Npm { package }) if package == "pkg"));
    assert_eq!(
        server::run(&mut cfg, &add("gh")).unwrap_err(),
        "server 'gh' already exists — use `server edit` to modify it"
    );
    let edit = ServerCmd::Edit {
        name: "gh".to_string(),
        command: Some("new".to_string()),
        args: None,
        env: vec![("B".to_string(), "b".to_string())],
        remove_env: vec!["A".to_string()],
        runtime: Some("docker".to_string()),
    };
    assert_eq!(server::run(&mut cfg, &edit).unwrap().lines, vec!["✅ updated server 'gh'"]);
    let srv = cfg.servers.get("gh").unwrap();
    assert_eq!(srv.command, "new");
    assert_eq!(srv.args, vec!["stdio"]);
    assert_eq!(srv.env.get("B").unwrap(), "b");
    assert!(!srv.env.contains("A"));
    assert_eq!(srv.runtime, Runtime::Docker);
    let done = server::run(&mut cfg, &ServerCmd::List).unwrap();
    assert_eq!(done.lines, vec!["  gh                   new (npm: pkg) [docker]"]);
    let remove = ServerCmd::Remove { name: "gh".to_string() };
    assert_eq!(server::run(&mut cfg, &remove).unwrap().lines, vec!["✅ removed server 'gh'"]);
    assert!(cfg.servers.is_empty());
    assert_eq!(server::run(&mut cfg, &remove).unwrap_err(), "server 'gh' not found");
    assert_eq!(server::run(&mut cfg, &edit).unwrap_err(), "server 'gh' not found");
}

#[test]
fn install_methods_in_words() {
    assert_eq!(server::describe_install(&InstallConfig::Npx), "npx");
    assert_eq!(
        server::describe_install(&InstallConfig::Pip { package: "p".to_string() }),
        "pip: p"
    );
    assert_eq!(
        server::describe_install(&InstallConfig::Binary {
            url: "u".to_string(),
            extract: None,
            binary: "b".to_string(),
        }),
        "binary: b"
    );
    let mut cfg = Config::default();
    cfg.servers.insert(
        "plain".to_string(),
        ServerConfig { command: "c".to_string(), ..Default::default() },
    );
    assert_eq!(server::list(&cfg), vec!["  plain                c"]);
}

// ---------------------------------------------------------------------------
// Profiles
// ---------------------------------------------------------------------------

fn set(profile: &str, env: Vec<(String, String)>) -> ProfileCmd {
    ProfileCmd::Override {
        profile: profile.to_string(),
        server: "gh".to_string(),
        command: None,
        args: None,
        env,
        runtime: Some("local".to_string()),
    }
}

#[test]
fn profiles_are_managed() {
    let mut pf = ProfilesFile::default();
    let mut settings = UserConfig::default();
    let done = profile::run(&mut pf, &mut settings, &ProfileCmd::List).unwrap();
    assert_eq!(done.lines, vec!["no profiles defined"]);
    let add = ProfileCmd::Add {
        name: "work".to_string(),
        description: Some("Work context".to_string()),
    };
    let done = profile::run(&mut pf, &mut settings, &add).unwrap();
    assert_eq!(done.lines, vec!["✅ created profile 'work'"]);
    assert!(done.changed && !done.settings_changed);
    assert_eq!(
        profile::run(&mut pf, &mut settings, &add).unwrap_err(),
        "profile 'work' already exists"
    );
    let env = vec![("T".to_string(), "${WORK}".to_string())];
    let done = profile::run(&mut pf, &mut settings, &set("work", env)).unwrap();
    assert_eq!(done.lines, vec!["✅ set override for 'gh' in profile 'work'"]);
    let p = pf.profiles.get("work").unwrap();
    let o = p.servers.get("gh").unwrap();
    assert_eq!(o.runtime, Some(Runtime::Local));
    assert_eq!(o.env.as_ref().unwrap().get("T").unwrap(), "${WORK}");
    assert!(o.command.is_none());
    let switch = ProfileCmd::Switch { name: Some("work".to_string()) };
    let done = profile::run(&mut pf, &mut settings, &switch).unwrap();
    assert_eq!(done.lines, vec!["✅ switched to profile: work"]);
    assert!(!done.changed && done.settings_changed);
    let done = profile::run(&mut pf, &mut settings, &ProfileCmd::List).unwrap();
    assert_eq!(
        done.lines,
        vec![
            "  work             Work context ◀ active",
            "    └─ gh (override)",
            "",
            "active profile: work",
        ]
    );
    let unset = ProfileCmd::Unset { profile: "work".to_string(), server: "gh".to_string() };
    let done = profile::run(&mut pf, &mut settings, &unset).unwrap();
    assert_eq!(done.lines, vec!["✅ removed override for 'gh' from profile 'work'"]);
    assert_eq!(
        profile::run(&mut pf, &mut settings, &unset).unwrap_err(),
        "no override for 'gh' in profile 'work'"
    );
    let remove = ProfileCmd::Remove { name: "work".to_string() };
    let done = profile::run(&mut pf, &mut settings, &remove).unwrap();
    assert_eq!(done.lines, vec!["✅ removed profile 'work'"]);
    assert!(done.changed && done.settings_changed);
    assert!(settings.default_profile.is_none());
    assert_eq!(
        profile::run(&mut pf, &mut settings, &remove).unwrap_err(),
        "profile 'work' not found"
    );
    assert_eq!(
        profile::run(&mut pf, &mut settings, &switch).unwrap_err(),
        "profile 'work' not found"
    );
    assert_eq!(
        profile::run(&mut pf, &mut settings, &set("work", vec![])).unwrap_err(),
        "profile 'work' not found"
    );
    let clear = ProfileCmd::Switch { name: None };
    let done = profile::run(&mut pf, &mut settings, &clear).unwrap();
    assert_eq!(done.lines, vec!["✅ cleared active profile (using all servers)"]);
}

#[test]
fn a_profile_without_description_is_listed() {
    let mut pf = ProfilesFile::default();
    let mut settings = UserConfig::default();
    let add = ProfileCmd::Add { name: "home".to_string(), description: None };
    profile::run(&mut pf, &mut settings, &add).unwrap();
    assert_eq!(
        profile::list(&pf, &None),
        vec![
            "  home             (no description)",
            "",
            "no active profile (using all servers)",
        ]
    );
}

#[test]
fn removing_another_profile_keeps_the_active_one() {
    let mut pf = ProfilesFile::default();
    let mut settings = UserConfig::default();
    for name in ["a", "b"] {
        let add = ProfileCmd::Add { name: name.to_string(), description: None };
        profile::run(&mut pf, &mut settings, &add).unwrap();
    }
    let switch = ProfileCmd::Switch { name: Some("a".to_string()) };
    profile::run(&mut pf, &mut settings, &switch).unwrap();
    let remove = ProfileCmd::Remove { name: "b".to_string() };
    let done = profile::run(&mut pf, &mut settings, &remove).unwrap();
    assert!(!done.settings_changed);
    assert_eq!(settings.default_profile, Some("a".to_string()));
}

// ---------------------------------------------------------------------------
// Clients
// ---------------------------------------------------------------------------

fn augment() -> ClientDef {
    known_clients(None, "/home/u", "linux").remove(0)
}

#[test]
fn clients_by_system() {
    let mac = known_clients(Some("Acme"), "/Users/u", "macos");
    assert_eq!(
        mac[0].config_path,
        "/Users/u/Library/Application Support/Acme/acme_desktop_config.json"
    );
    let windows = known_clients(Some("Acme"), "/u", "windows");
    assert_eq!(windows[0].config_path, "/u/AppData/Roaming/Acme/acme_desktop_config.json");
    let linux = known_clients(Some("Acme"), "/home/u", "linux");
    let found: Vec<(&str, &str)> =
        linux.iter().map(|c| (c.name.as_str(), c.config_path.as_str())).collect();
    assert_eq!(
        found,
        vec![
            ("Acme Desktop", "/home/u/.config/Acme/acme_desktop_config.json"),
            ("Acme CLI", "/home/u/.acme.json"),
            ("Augment", "/home/u/.augment/settings.json"),
        ]
    );
    assert!(linux.iter().all(|c| c.mcp_key == "mcpServers"));
    assert!(is_available(&linux[0], false, true));
    assert!(!is_available(&linux[0], true, false));
    assert!(is_available(&linux[1], true, false));
    assert!(!is_available(&linux[1], false, true));
    assert!(!is_available(&linux[2], false, true));
    assert_eq!(known_clients(None, "/home/u", "linux").len(), 1);
}

#[test]
fn the_proxy_is_installed_and_removed() {
    let client = augment();
    assert!(!is_installed(&client, None));
    let text = install(&client, None, "/bin/mcp-proxy", Some("work")).unwrap();
    assert!(is_installed(&client, Some(&text)));
    let cfg = read_config(Some(&text)).unwrap();
    let entry = cfg.get("mcpServers").unwrap().get("mcp-proxy").unwrap();
    assert_eq!(
        entry.to_text(),
        r#"{"args":["bridge","--profile","work"],"command":"/bin/mcp-proxy","type":"stdio"}"#
    );
    let removed = uninstall(&client, Some(&text)).unwrap();
    assert!(!is_installed(&client, Some(&removed)));
    assert_eq!(value(&removed).to_text(), r#"{"mcpServers":{}}"#);
    assert!(uninstall(&client, Some(&removed)).is_none());
    assert!(uninstall(&client, None).is_none());
    assert_eq!(
        mcp_entry(&client, "x", None).to_text(),
        r#"{"args":["bridge"],"command":"x","type":"stdio"}"#
    );
}

#[test]
fn installing_keeps_the_rest_of_the_configuration() {
    let client = augment();
    let raw = r#"{"theme":"dark","mcpServers":{"other":{"command":"o"}}}"#;
    let text = install(&client, Some(raw), "x", None).unwrap();
    let cfg = value(&text);
    assert_eq!(cfg.text_or("theme", ""), "dark");
    assert!(cfg.get("mcpServers").unwrap().get("other").is_some());
    let back = uninstall(&client, Some(&text)).unwrap();
    assert_eq!(value(&back).to_text(), value(raw).to_text());
    let again = install(&client, Some(&text), "x", None).unwrap();
    assert_eq!(again, text);
}

#[test]
fn odd_configurations_admit_no_entry() {
    let client = augment();
    assert!(install(&client, Some("[]"), "x", None).is_none());
    assert!(install(&client, Some(r#"{"mcpServers":3}"#), "x", None).is_none());
    assert!(install(&client, Some("not json"), "x", None).is_some());
    assert!(!is_installed(&client, Some(r#"{"mcpServers":3}"#)));
}

#[test]
fn selected_clients_get_the_proxy() {
    let actions = plan(&vec![true, true, false, false], &vec![0, 2]);
    assert_eq!(
        actions,
        vec![Action::Sync, Action::Remove, Action::Install, Action::Leave]
    );
    assert_eq!(done_line(Action::Sync, "A"), Some("  🔄 synced A".to_string()));
    assert_eq!(done_line(Action::Install, "A"), Some("  ✅ installed to A".to_string()));
    assert_eq!(done_line(Action::Remove, "A"), Some("  🗑️  removed from A".to_string()));
    assert_eq!(done_line(Action::Leave, "A"), None);
    assert_eq!(label(&augment(), true), "Augment (installed)");
    assert_eq!(label(&augment(), false), "Augment");
}

// ---------------------------------------------------------------------------
// Health
// ---------------------------------------------------------------------------

#[test]
fn health_is_shown_as_a_table() {
    let data = value(
        r#"{"backends":[{"name":"gh","scope":"session","ready":true,"tools":12,"idle_secs":125},
            {"ready":false,"idle_secs":null}],"session_count":2}"#,
    );
    let rule = format!("  {}", "─".repeat(60));
    assert_eq!(
        report(3000, &data),
        vec![
            "✅ hub is running (port 3000)",
            "",
            "  NAME                 SCOPE        READY    TOOLS  IDLE",
            rule.as_str(),
            "  gh                   session      ✓        12     2m",
            "  ?                    ?            ✗        0      —",
            "",
            "  active sessions: 2",
        ]
    );
}

#[test]
fn health_without_backends() {
    assert_eq!(
        report(1, &value(r#"{"backends":[]}"#)),
        vec![
            "✅ hub is running (port 1)",
            "",
            "  no backends running",
            "",
            "  active sessions: 0",
        ]
    );
    assert_eq!(
        report(1, &value("{}")),
        vec!["✅ hub is running (port 1)", "", "", "  active sessions: 0"]
    );
}

#[test]
fn idle_times_in_words() {
    assert_eq!(describe_idle(Some(59)), "59s");
    assert_eq!(describe_idle(Some(60)), "1m");
    assert_eq!(describe_idle(None), "—");
    assert_eq!(health_url(3000), "http://localhost:3000/health");
    assert_eq!(refused("502 Bad Gateway"), "❌ HTTP 502 Bad Gateway");
    assert_eq!(no_answer("u", "refused"), "❌ cannot reach hub at u: refused");
}

// ---------------------------------------------------------------------------
// Tests of servers
// ---------------------------------------------------------------------------

#[test]
fn servers_to_test() {
    let mut cfg = Config::default();
    for name in ["a", "_b", "c"] {
        cfg.servers.insert(name.to_string(), ServerConfig::default());
    }
    let none = names(&[]);
    assert_eq!(targets(&cfg, &vec![], &none), vec!["a", "c"]);
    let wanted = vec!["c".to_string(), "_b".to_string(), "gone".to_string()];
    assert_eq!(targets(&cfg, &wanted, &none), vec!["c"]);
}

#[test]
fn outcomes_are_summed_up() {
    let tool = Tool {
        name: "gh_t".to_string(),
        description: None,
        input_schema: None,
        original_name: "t".to_string(),
    };
    assert_eq!(
        opening("/c.json", 2),
        vec!["🔍 validating config: /c.json", "  ✅ config parsed (2 server(s))", ""]
    );
    assert_eq!(testing("gh"), "  testing gh...");
    assert_eq!(passed(&vec![tool]), vec![" ✅ 1 tool(s)", "    • gh_t"]);
    assert_eq!(failed("boom"), " ❌ boom");
    let v = summary(&vec![true, false, true]);
    assert_eq!(v.lines, vec!["", "2 passed, 1 failed"]);
    assert_eq!(v.error, Some("1 server(s) failed validation".to_string()));
    let v = summary(&vec![true]);
    assert_eq!(v.lines, vec!["", "1 passed, 0 failed"]);
    assert_eq!(v.error, None);
}

// ---------------------------------------------------------------------------
// Serving
// ---------------------------------------------------------------------------

#[test]
fn lines_about_the_config() {
    assert_eq!(init_line("/c", true), "created /c");
    assert_eq!(init_line("/c", false), "config already exists: /c");
    assert_eq!(
        starter_lines("/c"),
        vec!["created starter config: /c", "edit it to add your MCP servers, then restart.", ""]
    );
}

#[test]
fn only_the_config_file_matters() {
    let hit = vec![None, Some("servers.json".to_string())];
    let miss = vec![Some("other.json".to_string())];
    assert!(is_relevant(true, Some("servers.json"), &hit));
    assert!(!is_relevant(false, Some("servers.json"), &hit));
    assert!(!is_relevant(true, Some("servers.json"), &miss));
    assert!(is_relevant(true, None, &miss));
    assert!(!is_relevant(true, Some("servers.json"), &vec![]));
}

#[test]
fn a_burst_of_changes_leads_to_one_reload() {
    let mut d = Debounce::new();
    assert_eq!(d.wait_millis(), None);
    assert!(!d.step(Wake::Other, 0));
    assert!(!d.step(Wake::Changed, 1000));
    assert_eq!(d.wait_millis(), Some(500));
    assert!(!d.step(Wake::Changed, 1100));
    assert!(!d.step(Wake::Other, 1499), "399 ms are not quiet enough");
    assert!(d.step(Wake::Other, 1500));
    assert!(!d.step(Wake::Other, 9999), "one reload per burst");
    assert_eq!(d.wait_millis(), None);
}
