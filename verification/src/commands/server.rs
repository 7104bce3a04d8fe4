//! Managing the servers of the config.

use vstd::prelude::*;

use crate::cli::ServerCmd;
use crate::commands::{
    Report, assign_all, cat3, one_line, remove_all, runtime_named,
};
use crate::config::{Config, InstallConfig, InstallView, Runtime, ServerConfig, ServerView};
use crate::names::{Duplicate, NameMap};
use crate::text::{cat, copy_texts, pad_right};

verus! {

/// An install method in words.
pub open spec fn install_words(i: InstallView) -> Seq<char> {
    match i {
        InstallView::Npm { package } => "npm: "@ + package,
        InstallView::Pip { package } => "pip: "@ + package,
        InstallView::Binary { binary, .. } => "binary: "@ + binary,
        InstallView::Npx => "npx"@,
    }
}

/// The line for a server in the list.
pub open spec fn server_line(name: Seq<char>, srv: ServerView) -> Seq<char> {
    let head = "  "@ + crate::text::padded_right(name, 20) + " "@ + srv.command;
    match srv.install {
        Some(i) => head + (" ("@ + install_words(i) + ")"@) + (match srv.runtime {
            Runtime::Docker => " [docker]"@,
            Runtime::Local => " [local]"@,
        }),
        None => head,
    }
}

/// The lines of the list of servers.
pub open spec fn server_lines(servers: Seq<(Seq<char>, ServerView)>) -> Seq<Seq<char>> {
    if servers.len() == 0 {
        seq!["no servers configured"@]
    } else {
        Seq::new(servers.len(), |i: int| server_line(servers[i].0, servers[i].1))
    }
}

/// An install method in words.
pub fn describe_install(i: &InstallConfig) -> (r: String)
    ensures
        r@ == install_words(i@),
{
    match i {
        InstallConfig::Npm { package } => cat("npm: ", package.as_str()),
        InstallConfig::Pip { package } => cat("pip: ", package.as_str()),
        InstallConfig::Binary { binary, .. } => cat("binary: ", binary.as_str()),
        InstallConfig::Npx => "npx".to_owned(),
    }
}

fn line_of(name: &str, srv: &ServerConfig) -> (r: String)
    ensures
        r@ == server_line(name@, srv@),
{
    let padded = pad_right(name, 20);
    let mut r = cat3("  ", padded.as_str(), " ");
    r.append(srv.command.as_str());
    match &srv.install {
        Some(i) => {
            let words = describe_install(i);
            let info = cat3(" (", words.as_str(), ")");
            r.append(info.as_str());
            match srv.runtime {
                Runtime::Docker => {
                    r.append(" [docker]");
                },
                Runtime::Local => {
                    r.append(" [local]");
                },
            }
        },
        None => {},
    }
    r
}

/// The list of servers.
pub fn list(cfg: &Config) -> (r: Vec<String>)
    ensures
        crate::text::texts(r@) == server_lines(cfg.servers.pairs()),
{
    if cfg.servers.is_empty() {
        return one_line("no servers configured".to_owned());
    }
    let n: usize = cfg.servers.len();
    let mut out: Vec<String> = Vec::new();
    let mut i: usize = 0;
    let ghost servers = cfg.servers.pairs();
    while i < n
        invariant
            servers == cfg.servers.pairs(),
            n == servers.len(),
            i <= n,
            out@.len() == i,
            forall|k: int|
                0 <= k < i ==> (#[trigger] out@[k])@ == server_line(servers[k].0, servers[k].1),
        decreases n - i,
    {
        out.push(line_of(cfg.servers.name_at(i).as_str(), cfg.servers.value_at(i)));
        i = i + 1;
    }
    assert(crate::text::texts(out@) =~= server_lines(servers));
    out
}

/// The install method that the arguments of `add` name: npm wins over pip.
pub open spec fn install_given(npm: Option<Seq<char>>, pip: Option<Seq<char>>) -> Option<
    InstallView,
> {
    match npm {
        Some(package) => Some(InstallView::Npm { package }),
        None => match pip {
            Some(package) => Some(InstallView::Pip { package }),
            None => None,
        },
    }
}

/// The server that `add` makes.
pub open spec fn new_server(
    command: Seq<char>,
    args: Seq<Seq<char>>,
    env: Seq<(String, String)>,
    npm: Option<Seq<char>>,
    pip: Option<Seq<char>>,
    runtime: Option<Seq<char>>,
) -> ServerView {
    ServerView {
        install: install_given(npm, pip),
        runtime: match runtime {
            Some(name) => crate::commands::runtime_of(name),
            None => Runtime::Docker,
        },
        command,
        args,
        env: crate::commands::with_assignments(Map::empty(), env),
        ..crate::config::default_server()
    }
}

/// What is said of a server that is not there.
pub open spec fn not_found(name: Seq<char>) -> Seq<char> {
    "server '"@ + name + "' not found"@
}

/// Whether a config has changed in nothing but its servers, and those are
/// `servers` now.
pub open spec fn servers_become(
    before: Config,
    after: Config,
    servers: Seq<(Seq<char>, ServerView)>,
) -> bool {
    &&& after.servers.pairs() == servers
    &&& after.custom_tools == before.custom_tools
}

/// Adds a server; the name must be new.
pub fn add_server(
    cfg: &mut Config,
    name: &str,
    command: &str,
    args: &Vec<String>,
    env: &Vec<(String, String)>,
    npm: &Option<String>,
    pip: &Option<String>,
    runtime: &Option<String>,
) -> (r: Result<String, String>)
    ensures
        old(cfg).servers@.dom().contains(name@) ==> r is Err && r->Err_0@ == "server '"@ + name@
            + "' already exists — use `server edit` to modify it"@ && *final(cfg) == *old(cfg),
        !old(cfg).servers@.dom().contains(name@) ==> r is Ok && r->Ok_0@ == "✅ added server '"@
            + name@ + "'"@ && servers_become(
            *old(cfg),
            *final(cfg),
            crate::names::bound(
                old(cfg).servers.pairs(),
                name@,
                new_server(
                    command@,
                    crate::text::texts(args@),
                    env@,
                    crate::text::opt_text(*npm),
                    crate::text::opt_text(*pip),
                    crate::text::opt_text(*runtime),
                ),
            ),
        ),
{
    if cfg.servers.contains(name) {
        return Err(cat3("server '", name, "' already exists — use `server edit` to modify it"));
    }
    let mut srv = ServerConfig::default();
    srv.install = match npm {
        Some(package) => Some(InstallConfig::Npm { package: package.clone() }),
        None => match pip {
            Some(package) => Some(InstallConfig::Pip { package: package.clone() }),
            None => None,
        },
    };
    srv.runtime = match runtime {
        Some(rt) => runtime_named(rt.as_str()),
        None => Runtime::Docker,
    };
    srv.command = command.to_owned();
    srv.args = copy_texts(args);
    let mut vars: NameMap<String> = NameMap::new();
    assign_all(&mut vars, env);
    srv.env = vars;
    assert(srv@ =~= new_server(
        command@,
        crate::text::texts(args@),
        env@,
        crate::text::opt_text(*npm),
        crate::text::opt_text(*pip),
        crate::text::opt_text(*runtime),
    ));
    cfg.servers.insert(name.to_owned(), srv);
    Ok(cat3("✅ added server '", name, "'"))
}

/// Removes a server.
pub fn remove_server(cfg: &mut Config, name: &str) -> (r: Result<String, String>)
    ensures
        !old(cfg).servers@.dom().contains(name@) ==> r is Err && r->Err_0@ == not_found(name@)
            && *final(cfg) == *old(cfg),
        old(cfg).servers@.dom().contains(name@) ==> r is Ok && r->Ok_0@ == "✅ removed server '"@
            + name@ + "'"@ && servers_become(
            *old(cfg),
            *final(cfg),
            crate::names::unbound(old(cfg).servers.pairs(), name@),
        ),
{
    if !cfg.servers.contains(name) {
        return Err(cat3("server '", name, "' not found"));
    }
    let _gone = cfg.servers.remove(name);
    Ok(cat3("✅ removed server '", name, "'"))
}

/// A server as `edit` leaves it: what is given replaces what was there, the
/// variables of `env` are set, and then those of `remove_env` are taken away.
pub open spec fn edited(
    srv: ServerView,
    command: Option<Seq<char>>,
    args: Option<Seq<Seq<char>>>,
    env: Seq<(String, String)>,
    remove_env: Seq<String>,
    runtime: Option<Seq<char>>,
) -> ServerView {
    ServerView {
        command: crate::config::or_base(command, srv.command),
        args: crate::config::or_base(args, srv.args),
        env: crate::commands::without_names(
            crate::commands::with_assignments(srv.env, env),
            remove_env,
        ),
        runtime: match runtime {
            Some(name) => crate::commands::runtime_of(name),
            None => srv.runtime,
        },
        ..srv
    }
}

/// Edits a server.
pub fn edit_server(
    cfg: &mut Config,
    name: &str,
    command: &Option<String>,
    args: &Option<Vec<String>>,
    env: &Vec<(String, String)>,
    remove_env: &Vec<String>,
    runtime: &Option<String>,
) -> (r: Result<String, String>)
    ensures
        !old(cfg).servers@.dom().contains(name@) ==> r is Err && r->Err_0@ == not_found(name@)
            && *final(cfg) == *old(cfg),
        old(cfg).servers@.dom().contains(name@) ==> r is Ok && r->Ok_0@ == "✅ updated server '"@
            + name@ + "'"@ && servers_become(
            *old(cfg),
            *final(cfg),
            crate::names::bound(
                old(cfg).servers.pairs(),
                name@,
                edited(
                    old(cfg).servers@[name@],
                    crate::text::opt_text(*command),
                    crate::config::opt_texts(*args),
                    env@,
                    remove_env@,
                    crate::text::opt_text(*runtime),
                ),
            ),
        ),
{
    let mut srv = match cfg.servers.get(name) {
        Some(s) => s.duplicate(),
        None => {
            return Err(cat3("server '", name, "' not found"));
        },
    };
    if let Some(c) = command {
        srv.command = c.clone();
    }
    if let Some(a) = args {
        srv.args = copy_texts(a);
    }
    assign_all(&mut srv.env, env);
    remove_all(&mut srv.env, remove_env);
    if let Some(rt) = runtime {
        srv.runtime = runtime_named(rt.as_str());
    }
    assert(srv@ =~= edited(
        cfg.servers@[name@],
        crate::text::opt_text(*command),
        crate::config::opt_texts(*args),
        env@,
        remove_env@,
        crate::text::opt_text(*runtime),
    ));
    cfg.servers.insert(name.to_owned(), srv);
    Ok(cat3("✅ updated server '", name, "'"))
}

fn done(r: Result<String, String>) -> (d: Result<Report, String>)
    ensures
        r is Ok == d is Ok,
        r matches Err(e) ==> d->Err_0@ == e@,
        r matches Ok(line) ==> crate::text::texts(d->Ok_0.lines@) == seq![line@] && d->Ok_0.changed
            && !d->Ok_0.settings_changed,
{
    match r {
        Ok(line) => Ok(
            Report { lines: one_line(line), changed: true, settings_changed: false },
        ),
        Err(e) => Err(e),
    }
}

/// Does `action`: the lines to show and whether the config has changed, or why
/// nothing was done.
pub fn run(cfg: &mut Config, action: &ServerCmd) -> (r: Result<Report, String>)
    ensures
        r is Err ==> *final(cfg) == *old(cfg),
        r matches Ok(d) ==> !d.settings_changed && d.changed == !(*action is List),
        match *action {
            ServerCmd::List => r is Ok && crate::text::texts(r->Ok_0.lines@) == server_lines(
                old(cfg).servers.pairs(),
            ) && *final(cfg) == *old(cfg),
            ServerCmd::Add { name, command, args, env, npm, pip, runtime } => {
                if old(cfg).servers@.dom().contains(name@) {
                    r is Err && r->Err_0@ == "server '"@ + name@
                        + "' already exists — use `server edit` to modify it"@
                } else {
                    &&& r is Ok
                    &&& crate::text::texts(r->Ok_0.lines@) == seq![
                        "✅ added server '"@ + name@ + "'"@,
                    ]
                    &&& servers_become(
                        *old(cfg),
                        *final(cfg),
                        crate::names::bound(
                            old(cfg).servers.pairs(),
                            name@,
                            new_server(
                                command@,
                                crate::text::texts(args@),
                                env@,
                                crate::text::opt_text(npm),
                                crate::text::opt_text(pip),
                                crate::text::opt_text(runtime),
                            ),
                        ),
                    )
                }
            },
            ServerCmd::Remove { name } => {
                if old(cfg).servers@.dom().contains(name@) {
                    &&& r is Ok
                    &&& crate::text::texts(r->Ok_0.lines@) == seq![
                        "✅ removed server '"@ + name@ + "'"@,
                    ]
                    &&& servers_become(
                        *old(cfg),
                        *final(cfg),
                        crate::names::unbound(old(cfg).servers.pairs(), name@),
                    )
                } else {
                    r is Err && r->Err_0@ == not_found(name@)
                }
            },
            ServerCmd::Edit { name, command, args, env, remove_env, runtime } => {
                if old(cfg).servers@.dom().contains(name@) {
                    &&& r is Ok
                    &&& crate::text::texts(r->Ok_0.lines@) == seq![
                        "✅ updated server '"@ + name@ + "'"@,
                    ]
                    &&& servers_become(
                        *old(cfg),
                        *final(cfg),
                        crate::names::bound(
                            old(cfg).servers.pairs(),
                            name@,
                            edited(
                                old(cfg).servers@[name@],
                                crate::text::opt_text(command),
                                crate::config::opt_texts(args),
                                env@,
                                remove_env@,
                                crate::text::opt_text(runtime),
                            ),
                        ),
                    )
                } else {
                    r is Err && r->Err_0@ == not_found(name@)
                }
            },
        },
{
    match action {
        ServerCmd::List => Ok(
            Report { lines: list(cfg), changed: false, settings_changed: false },
        ),
        ServerCmd::Add { name, command, args, env, npm, pip, runtime } => done(
            add_server(cfg, name.as_str(), command.as_str(), args, env, npm, pip, runtime),
        ),
        ServerCmd::Remove { name } => done(remove_server(cfg, name.as_str())),
        ServerCmd::Edit { name, command, args, env, remove_env, runtime } => done(
            edit_server(cfg, name.as_str(), command, args, env, remove_env, runtime),
        ),
    }
}

// ---------------------------------------------------------------------------
// Laws
// ---------------------------------------------------------------------------

/// Editing with nothing given changes nothing.
pub proof fn editing_nothing_changes_nothing(srv: ServerView)
    ensures
        edited(srv, None, None, Seq::empty(), Seq::empty(), None) == srv,
{
    assert(edited(srv, None, None, Seq::empty(), Seq::empty(), None) =~= srv);
}

/// A new server has what was given, and is shared and set up as servers are by
/// default.
pub proof fn new_server_has_what_was_given(
    command: Seq<char>,
    args: Seq<Seq<char>>,
    env: Seq<(String, String)>,
    npm: Option<Seq<char>>,
    pip: Option<Seq<char>>,
    runtime: Option<Seq<char>>,
)
    ensures
        ({
            let r = new_server(command, args, env, npm, pip, runtime);
            &&& r.command == command
            &&& r.args == args
            &&& r.env == crate::commands::with_assignments(Map::empty(), env)
            &&& npm is Some ==> r.install == Some(InstallView::Npm { package: npm->0 })
            &&& npm is None && pip is Some ==> r.install == Some(
                InstallView::Pip { package: pip->0 },
            )
            &&& npm is None && pip is None ==> r.install is None
            &&& (r.runtime == Runtime::Local) == (runtime == Some("local"@))
            &&& r.env_toggle is None
            &&& r.timeout_secs == crate::config::default_server().timeout_secs
            &&& r.shared == crate::config::default_server().shared
            &&& r.include_tools.len() == 0
            &&& r.exclude_tools.len() == 0
        }),
{
}

/// Editing a server changes what was given and keeps the rest; a variable that
/// is set and taken out at once is taken out.
pub proof fn editing_changes_what_was_given(
    srv: ServerView,
    command: Option<Seq<char>>,
    args: Option<Seq<Seq<char>>>,
    env: Seq<(String, String)>,
    remove_env: Seq<String>,
    runtime: Option<Seq<char>>,
    k: int,
)
    ensures
        ({
            let r = edited(srv, command, args, env, remove_env, runtime);
            &&& command is Some ==> r.command == command->0
            &&& command is None ==> r.command == srv.command
            &&& args is Some ==> r.args == args->0
            &&& args is None ==> r.args == srv.args
            &&& runtime is None ==> r.runtime == srv.runtime
            &&& runtime is Some ==> (r.runtime == Runtime::Local) == (runtime->0 == "local"@)
            &&& 0 <= k < remove_env.len() ==> !r.env.dom().contains(remove_env[k]@)
            &&& 0 <= k < env.len() && (forall|i: int|
                0 <= i < remove_env.len() ==> (#[trigger] remove_env[i])@ != env[k].0@) && (
            forall|i: int| k < i < env.len() ==> (#[trigger] env[i]).0@ != env[k].0@)
                ==> r.env.dom().contains(env[k].0@) && r.env[env[k].0@] == env[k].1@
            &&& r.install == srv.install
            &&& r.env_toggle == srv.env_toggle
            &&& r.shared == srv.shared
            &&& r.timeout_secs == srv.timeout_secs
            &&& r.idle_timeout_secs == srv.idle_timeout_secs
            &&& r.auto_restart == srv.auto_restart
            &&& r.max_restarts == srv.max_restarts
            &&& r.include_tools == srv.include_tools
            &&& r.exclude_tools == srv.exclude_tools
            &&& r.tool_aliases == srv.tool_aliases
        }),
{
    let given = crate::commands::with_assignments(srv.env, env);
    if 0 <= k < remove_env.len() {
        crate::commands::only_named_variables_are_taken_out(given, remove_env, remove_env[k]@);
    }
    if 0 <= k < env.len() && (forall|i: int|
        0 <= i < remove_env.len() ==> (#[trigger] remove_env[i])@ != env[k].0@) && (forall|i: int|
        k < i < env.len() ==> (#[trigger] env[i]).0@ != env[k].0@) {
        crate::commands::last_assignment_wins(srv.env, env, k + 1, env[k].0@);
        crate::commands::only_named_variables_are_taken_out(given, remove_env, env[k].0@);
    }
}

/// A variable that is neither set nor taken out keeps its value.
pub proof fn editing_keeps_other_variables(
    srv: ServerView,
    command: Option<Seq<char>>,
    args: Option<Seq<Seq<char>>>,
    env: Seq<(String, String)>,
    remove_env: Seq<String>,
    runtime: Option<Seq<char>>,
    key: Seq<char>,
)
    requires
        forall|i: int| 0 <= i < env.len() ==> (#[trigger] env[i]).0@ != key,
        forall|i: int| 0 <= i < remove_env.len() ==> (#[trigger] remove_env[i])@ != key,
    ensures
        ({
            let r = edited(srv, command, args, env, remove_env, runtime);
            r.env.dom().contains(key) == srv.env.dom().contains(key) && (srv.env.dom().contains(
                key,
            ) ==> r.env[key] == srv.env[key])
        }),
{
    let given = crate::commands::with_assignments(srv.env, env);
    crate::commands::last_assignment_wins(srv.env, env, 0, key);
    crate::commands::only_named_variables_are_taken_out(given, remove_env, key);
}

/// Each server has a line of its own, in order, that begins with its name and
/// holds its command.
pub proof fn each_server_has_a_line(servers: Seq<(Seq<char>, ServerView)>, i: int)
    requires
        0 <= i < servers.len(),
    ensures
        server_lines(servers).len() == servers.len(),
        crate::text::begins(server_lines(servers)[i], "  "@ + servers[i].0),
        crate::text::contains_pat(server_lines(servers)[i], servers[i].1.command),
{
    let name = servers[i].0;
    let srv = servers[i].1;
    let line = server_line(name, srv);
    let pad = crate::text::padded_right(name, 20);
    let none = Seq::<char>::empty();
    let head = "  "@ + pad + " "@ + srv.command;
    let more = match srv.install {
        Some(i) => (" ("@ + install_words(i) + ")"@) + (match srv.runtime {
            Runtime::Docker => " [docker]"@,
            Runtime::Local => " [local]"@,
        }),
        None => none,
    };
    assert(line =~= ("  "@ + pad + " "@) + srv.command + more);
    crate::text::lemma_part_stands("  "@ + pad + " "@, srv.command, more);
    crate::text::padding_fills_to_the_width(name, ' ', 20, 0);
    assert(pad.subrange(0, name.len() as int) == name);
    let n = ("  "@ + name).len() as int;
    assert(line.subrange(0, n) =~= "  "@ + pad.subrange(0, name.len() as int));
}

/// Setting a server sets that one and leaves the others and the custom tools;
/// removing it takes out that one.
pub proof fn other_servers_stay(
    before: Config,
    after: Config,
    name: Seq<char>,
    srv: ServerView,
    other: Seq<char>,
)
    requires
        crate::names::distinct_names(before.servers.pairs()),
        other != name,
    ensures
        servers_become(before, after, crate::names::bound(before.servers.pairs(), name, srv)) ==> {
            let m = crate::names::map_of(after.servers.pairs());
            let b = crate::names::map_of(before.servers.pairs());
            &&& m.dom().contains(name) && m[name] == srv
            &&& m.dom().contains(other) == b.dom().contains(other)
            &&& b.dom().contains(other) ==> m[other] == b[other]
            &&& after.custom_tools == before.custom_tools
        },
        servers_become(before, after, crate::names::unbound(before.servers.pairs(), name)) ==> {
            let m = crate::names::map_of(after.servers.pairs());
            let b = crate::names::map_of(before.servers.pairs());
            &&& !m.dom().contains(name)
            &&& m.dom().contains(other) == b.dom().contains(other)
            &&& b.dom().contains(other) ==> m[other] == b[other]
            &&& after.custom_tools == before.custom_tools
        },
{
    crate::names::lemma_bound(before.servers.pairs(), name, srv);
    crate::names::lemma_unbound(before.servers.pairs(), name);
}

/// The message about a server that is not there names it.
pub proof fn missing_server_is_named(name: Seq<char>)
    ensures
        crate::text::contains_pat(not_found(name), "'"@ + name + "' not found"@),
{
    reveal_strlit("server '");
    reveal_strlit("'");
    let none = Seq::<char>::empty();
    let p = "server '"@;
    let h = p.subrange(0, p.len() - 1);
    let pat = "'"@ + name + "' not found"@;
    assert(p =~= h + "'"@);
    assert(not_found(name) =~= h + pat + none);
    crate::text::lemma_part_stands(h, pat, none);
}

} // verus!
