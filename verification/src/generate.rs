//! The Dockerfile and the `.env.example` of a whole config.
use vstd::prelude::*;

use crate::config::{
    Config, ExtractMethod, InstallConfig, InstallView, ServerConfig, ServerView, is_set_aside,
};
use crate::docker::binary_install;
use crate::expand::extract_var_names;
use crate::text::{cat, contains_text, join};

verus! {

// ---------------------------------------------------------------------------
// Dockerfile
// ---------------------------------------------------------------------------

/// The npm packages of the servers, in order.
pub open spec fn npm_packages(servers: Seq<(Seq<char>, ServerView)>) -> Seq<Seq<char>>
    decreases servers.len(),
{
    if servers.len() == 0 {
        Seq::empty()
    } else {
        let before = npm_packages(servers.drop_last());
        let (name, srv) = servers.last();
        match srv.install {
            Some(InstallView::Npm { package }) => if crate::config::set_aside(name) {
                before
            } else {
                before.push(package)
            },
            _ => before,
        }
    }
}

/// The pip packages of the servers, in order.
pub open spec fn pip_packages(servers: Seq<(Seq<char>, ServerView)>) -> Seq<Seq<char>>
    decreases servers.len(),
{
    if servers.len() == 0 {
        Seq::empty()
    } else {
        let before = pip_packages(servers.drop_last());
        let (name, srv) = servers.last();
        match srv.install {
            Some(InstallView::Pip { package }) => if crate::config::set_aside(name) {
                before
            } else {
                before.push(package)
            },
            _ => before,
        }
    }
}

/// Some server has a binary that comes as a zip archive.
pub open spec fn needs_unzip(servers: Seq<(Seq<char>, ServerView)>) -> bool
    decreases servers.len(),
{
    if servers.len() == 0 {
        false
    } else {
        let (name, srv) = servers.last();
        needs_unzip(servers.drop_last()) || (!crate::config::set_aside(name) && match srv.install {
            Some(InstallView::Binary { extract, .. }) => extract == Some(ExtractMethod::Zip),
            _ => false,
        })
    }
}

/// The steps that install the binaries of the servers, in order.
pub open spec fn binaries_text(servers: Seq<(Seq<char>, ServerView)>) -> Seq<char>
    decreases servers.len(),
{
    if servers.len() == 0 {
        Seq::empty()
    } else {
        let before = binaries_text(servers.drop_last());
        let (name, srv) = servers.last();
        match srv.install {
            Some(InstallView::Binary { url, extract, binary }) => if crate::config::set_aside(
                name,
            ) {
                before
            } else {
                before + crate::docker::binary_steps(
                    url,
                    extract,
                    binary,
                    "/tmp/"@ + name + "-dl"@,
                    "/tmp/"@ + name + "-ex"@,
                )
            },
            _ => before,
        }
    }
}

/// The system packages.
pub open spec fn apt_text(pip: bool, unzip: bool) -> Seq<char> {
    "RUN apt-get update && apt-get install -y --no-install-recommends \\\n    curl \\\n    ca-certificates"@
        + (if pip {
        " \\\n    python3 \\\n    python3-pip"@
    } else {
        ""@
    }) + (if unzip {
        " \\\n    unzip"@
    } else {
        ""@
    }) + " && \\\n    rm -rf /var/lib/apt/lists/*\n"@
}

/// The step that installs a list of packages; none if the list is empty.
pub open spec fn packages_text(command: Seq<char>, packages: Seq<Seq<char>>) -> Seq<char> {
    if packages.len() == 0 {
        ""@
    } else {
        command + crate::text::joined(packages, " \\\n    "@) + "\n"@
    }
}

/// What every Dockerfile ends with.
pub open spec fn closing_text() -> Seq<char> {
    "\nWORKDIR /app\nCOPY config/servers.json /app/config/servers.json\nCOPY mcp-proxy /usr/local/bin/mcp-proxy\n\nENV CONFIG_PATH=/app/config/servers.json\nENV MCP_TRANSPORT=http\nENV MCP_PORT=3000\n\nEXPOSE 3000\nCMD [\"mcp-proxy\", \"serve\"]\n"@
}

/// The Dockerfile of the servers.
pub open spec fn dockerfile_text(servers: Seq<(Seq<char>, ServerView)>) -> Seq<char> {
    "FROM node:lts-slim\n\n"@ + apt_text(pip_packages(servers).len() > 0, needs_unzip(servers))
        + binaries_text(servers) + packages_text(
        "\nRUN npm install -g \\\n    "@,
        npm_packages(servers),
    ) + packages_text(
        "\nRUN pip3 install --break-system-packages \\\n    "@,
        pip_packages(servers),
    ) + closing_text()
}

fn packages_step(command: &str, packages: &Vec<String>) -> (r: String)
    ensures
        r@ == packages_text(command@, crate::text::texts(packages@)),
{
    assert(crate::text::texts(packages@).len() == packages@.len());
    if packages.len() == 0 {
        return "".to_owned();
    }
    let list = join(packages, " \\\n    ");
    let mut s = cat(command, list.as_str());
    s.append("\n");
    s
}

fn apt_step(pip: bool, unzip: bool) -> (r: String)
    ensures
        r@ == apt_text(pip, unzip),
{
    let a: &str = if pip {
        " \\\n    python3 \\\n    python3-pip"
    } else {
        ""
    };
    let b: &str = if unzip {
        " \\\n    unzip"
    } else {
        ""
    };
    let mut s = cat(
        "RUN apt-get update && apt-get install -y --no-install-recommends \\\n    curl \\\n    ca-certificates",
        a,
    );
    s.append(b);
    s.append(" && \\\n    rm -rf /var/lib/apt/lists/*\n");
    s
}

/// Writes the Dockerfile of a config.
pub fn dockerfile(config: &Config) -> (r: String)
    ensures
        r@ == dockerfile_text(config.servers.pairs()),
{
    let ghost pairs = config.servers.pairs();
    let mut npm: Vec<String> = Vec::new();
    let mut pip: Vec<String> = Vec::new();
    let mut bins: String = String::new();
    let mut need_zip: bool = false;
    let n: usize = config.servers.len();
    let mut i: usize = 0;
    assert(crate::text::texts(npm@) =~= npm_packages(pairs.take(0)));
    assert(crate::text::texts(pip@) =~= pip_packages(pairs.take(0)));
    assert(bins@ =~= binaries_text(pairs.take(0)));
    while i < n
        invariant
            pairs == config.servers.pairs(),
            n == pairs.len(),
            i <= n,
            crate::text::texts(npm@) == npm_packages(pairs.take(i as int)),
            crate::text::texts(pip@) == pip_packages(pairs.take(i as int)),
            bins@ == binaries_text(pairs.take(i as int)),
            need_zip == needs_unzip(pairs.take(i as int)),
        decreases n - i,
    {
        assert(pairs.take(i + 1).drop_last() =~= pairs.take(i as int));
        assert(pairs.take(i + 1).last() == pairs[i as int]);
        let name: &String = config.servers.name_at(i);
        let srv: &ServerConfig = config.servers.value_at(i);
        if !is_set_aside(name.as_str()) {
            match &srv.install {
                Some(InstallConfig::Npm { package }) => {
                    let ghost before = npm@;
                    npm.push(package.clone());
                    assert(crate::text::texts(npm@) =~= crate::text::texts(before).push(
                        package@,
                    ));
                },
                Some(InstallConfig::Pip { package }) => {
                    let ghost before = pip@;
                    pip.push(package.clone());
                    assert(crate::text::texts(pip@) =~= crate::text::texts(before).push(
                        package@,
                    ));
                },
                Some(InstallConfig::Binary { url, extract, binary }) => {
                    if matches!(*extract, Some(ExtractMethod::Zip)) {
                        need_zip = true;
                    }
                    let mut dl = cat("/tmp/", name.as_str());
                    dl.append("-dl");
                    let mut ex = cat("/tmp/", name.as_str());
                    ex.append("-ex");
                    let steps = binary_install(
                        url.as_str(),
                        *extract,
                        binary.as_str(),
                        dl.as_str(),
                        ex.as_str(),
                    );
                    bins.append(steps.as_str());
                },
                _ => {},
            }
        }
        i = i + 1;
    }
    assert(pairs.take(n as int) =~= pairs);
    assert(crate::text::texts(pip@).len() == pip@.len());
    let apt = apt_step(pip.len() > 0, need_zip);
    let npm_step = packages_step("\nRUN npm install -g \\\n    ", &npm);
    let pip_step = packages_step(
        "\nRUN pip3 install --break-system-packages \\\n    ",
        &pip,
    );
    let mut d = cat("FROM node:lts-slim\n\n", apt.as_str());
    d.append(bins.as_str());
    d.append(npm_step.as_str());
    d.append(pip_step.as_str());
    d.append(
        "\nWORKDIR /app\nCOPY config/servers.json /app/config/servers.json\nCOPY mcp-proxy /usr/local/bin/mcp-proxy\n\nENV CONFIG_PATH=/app/config/servers.json\nENV MCP_TRANSPORT=http\nENV MCP_PORT=3000\n\nEXPOSE 3000\nCMD [\"mcp-proxy\", \"serve\"]\n",
    );
    d
}

// ---------------------------------------------------------------------------
// .env.example
// ---------------------------------------------------------------------------

/// The toggles of the servers, each on.
pub open spec fn toggles_text(servers: Seq<(Seq<char>, ServerView)>) -> Seq<char>
    decreases servers.len(),
{
    if servers.len() == 0 {
        Seq::empty()
    } else {
        let before = toggles_text(servers.drop_last());
        let (name, srv) = servers.last();
        match srv.env_toggle {
            Some(t) => if crate::config::set_aside(name) {
                before
            } else {
                before + t + "=true\n"@
            },
            None => before,
        }
    }
}

/// The names that are in neither list yet, in order, each once.
pub open spec fn fresh_names(seen: Seq<Seq<char>>, names: Seq<Seq<char>>) -> Seq<Seq<char>>
    decreases names.len(),
{
    if names.len() == 0 {
        Seq::empty()
    } else {
        let before = fresh_names(seen, names.drop_last());
        if seen.contains(names.last()) || before.contains(names.last()) {
            before
        } else {
            before.push(names.last())
        }
    }
}

/// The variables that the values of `env` refer to, in order.
pub open spec fn env_names(env: Seq<(Seq<char>, Seq<char>)>) -> Seq<Seq<char>>
    decreases env.len(),
{
    if env.len() == 0 {
        Seq::empty()
    } else {
        env_names(env.drop_last()) + crate::expand::var_names(env.last().1)
    }
}

/// The variables that the arguments refer to, in order.
pub open spec fn arg_names(args: Seq<Seq<char>>) -> Seq<Seq<char>>
    decreases args.len(),
{
    if args.len() == 0 {
        Seq::empty()
    } else {
        arg_names(args.drop_last()) + crate::expand::var_names(args.last())
    }
}

/// The variables that a server refers to, in order.
pub open spec fn server_names(srv: ServerConfig) -> Seq<Seq<char>> {
    env_names(srv.env.pairs()) + arg_names(crate::text::texts(srv.args@))
}

/// The variables of the first `n` servers, each once.
pub open spec fn names_seen(
    names: Seq<(Seq<char>, ServerView)>,
    servers: Seq<ServerConfig>,
    n: nat,
) -> Seq<Seq<char>>
    decreases n,
{
    if n == 0 {
        Seq::empty()
    } else {
        let before = names_seen(names, servers, (n - 1) as nat);
        if crate::config::set_aside(names[n - 1].0) {
            before
        } else {
            before + fresh_names(before, server_names(servers[n - 1]))
        }
    }
}

/// A line for each variable.
pub open spec fn lines_text(vars: Seq<Seq<char>>) -> Seq<char>
    decreases vars.len(),
{
    if vars.len() == 0 {
        Seq::empty()
    } else {
        lines_text(vars.drop_last()) + vars.last() + "=\n"@
    }
}

/// The variables of one server; none if it has none of its own.
pub open spec fn section_text(name: Seq<char>, vars: Seq<Seq<char>>) -> Seq<char> {
    if vars.len() == 0 {
        Seq::empty()
    } else {
        "\n# "@ + name + "\n"@ + lines_text(vars)
    }
}

/// The variables of the first `n` servers, by the first server that refers to
/// them.
pub open spec fn sections_text(
    names: Seq<(Seq<char>, ServerView)>,
    servers: Seq<ServerConfig>,
    n: nat,
) -> Seq<char>
    decreases n,
{
    if n == 0 {
        Seq::empty()
    } else {
        let before = sections_text(names, servers, (n - 1) as nat);
        if crate::config::set_aside(names[n - 1].0) {
            before
        } else {
            before + section_text(
                names[n - 1].0,
                fresh_names(
                    names_seen(names, servers, (n - 1) as nat),
                    server_names(servers[n - 1]),
                ),
            )
        }
    }
}

/// The `.env.example` of the servers.
pub open spec fn env_example_text(
    names: Seq<(Seq<char>, ServerView)>,
    servers: Seq<ServerConfig>,
) -> Seq<char> {
    "# MCP Proxy — Environment Configuration\n# Auto-generated from config/servers.json\n\nMCP_PORT=3000\n\n# Enable/disable servers (all enabled by default, set false to disable)\n"@
        + toggles_text(names) + "\n# API tokens / credentials\n"@ + sections_text(
        names,
        servers,
        names.len(),
    )
}

/// Adds the names that are in neither list yet to `fresh`.
fn add_fresh(seen: &Vec<String>, fresh: &mut Vec<String>, value: &str, Ghost(names): Ghost<
    Seq<Seq<char>>,
>)
    requires
        crate::text::texts(old(fresh)@) == fresh_names(crate::text::texts(seen@), names),
    ensures
        crate::text::texts(final(fresh)@) == fresh_names(
            crate::text::texts(seen@),
            names + crate::expand::var_names(value@),
        ),
{
    let found = extract_var_names(value);
    let ghost all = crate::text::texts(found@);
    let mut i: usize = 0;
    assert(names + all.take(0) =~= names);
    while i < found.len()
        invariant
            all == crate::text::texts(found@),
            i <= found@.len(),
            crate::text::texts(fresh@) == fresh_names(
                crate::text::texts(seen@),
                names + all.take(i as int),
            ),
        decreases found@.len() - i,
    {
        proof {
            let longer = names + all.take(i + 1);
            assert(longer.drop_last() =~= names + all.take(i as int));
            assert(longer.last() == all[i as int]);
        }
        if !contains_text(seen, found[i].as_str()) && !contains_text(fresh, found[i].as_str()) {
            let ghost before = fresh@;
            fresh.push(found[i].clone());
            assert(crate::text::texts(fresh@) =~= crate::text::texts(before).push(
                all[i as int],
            ));
        }
        i = i + 1;
    }
    assert(all.take(all.len() as int) =~= all);
}

/// The variables that a server refers to and that are not seen yet.
fn fresh_of(seen: &Vec<String>, srv: &ServerConfig) -> (r: Vec<String>)
    ensures
        crate::text::texts(r@) == fresh_names(crate::text::texts(seen@), server_names(*srv)),
{
    let mut fresh: Vec<String> = Vec::new();
    let ghost env = srv.env.pairs();
    let n: usize = srv.env.len();
    let mut i: usize = 0;
    assert(crate::text::texts(fresh@) =~= Seq::empty());
    while i < n
        invariant
            env == srv.env.pairs(),
            n == env.len(),
            i <= n,
            crate::text::texts(fresh@) == fresh_names(
                crate::text::texts(seen@),
                env_names(env.take(i as int)),
            ),
        decreases n - i,
    {
        assert(env.take(i + 1).drop_last() =~= env.take(i as int));
        add_fresh(
            seen,
            &mut fresh,
            srv.env.value_at(i).as_str(),
            Ghost(env_names(env.take(i as int))),
        );
        i = i + 1;
    }
    assert(env.take(n as int) =~= env);
    let ghost args = crate::text::texts(srv.args@);
    let mut i: usize = 0;
    assert(env_names(env) + arg_names(args.take(0)) =~= env_names(env));
    while i < srv.args.len()
        invariant
            args == crate::text::texts(srv.args@),
            i <= srv.args@.len(),
            crate::text::texts(fresh@) == fresh_names(
                crate::text::texts(seen@),
                env_names(env) + arg_names(args.take(i as int)),
            ),
        decreases srv.args@.len() - i,
    {
        proof {
            assert(args.take(i + 1).drop_last() =~= args.take(i as int));
            assert(env_names(env) + arg_names(args.take(i + 1)) =~= env_names(env) + arg_names(
                args.take(i as int),
            ) + crate::expand::var_names(args[i as int]));
        }
        add_fresh(
            seen,
            &mut fresh,
            srv.args[i].as_str(),
            Ghost(env_names(env) + arg_names(args.take(i as int))),
        );
        i = i + 1;
    }
    assert(args.take(args.len() as int) =~= args);
    fresh
}

fn section(name: &str, vars: &Vec<String>) -> (r: String)
    ensures
        r@ == section_text(name@, crate::text::texts(vars@)),
{
    let ghost all = crate::text::texts(vars@);
    let mut s = String::new();
    if vars.len() == 0 {
        assert(s@ =~= Seq::empty());
        return s;
    }
    let mut lines = String::new();
    let mut i: usize = 0;
    assert(lines@ =~= lines_text(all.take(0)));
    while i < vars.len()
        invariant
            all == crate::text::texts(vars@),
            i <= vars@.len(),
            lines@ == lines_text(all.take(i as int)),
        decreases vars@.len() - i,
    {
        assert(all.take(i + 1).drop_last() =~= all.take(i as int));
        lines.append(vars[i].as_str());
        lines.append("=\n");
        i = i + 1;
    }
    assert(all.take(all.len() as int) =~= all);
    let mut s = cat("\n# ", name);
    s.append("\n");
    s.append(lines.as_str());
    s
}

/// Writes the `.env.example` of a config.
pub fn env_example(config: &Config) -> (r: String)
    ensures
        r@ == env_example_text(config.servers.pairs(), config.servers.values()),
{
    let ghost names = config.servers.pairs();
    let ghost servers = config.servers.values();
    let mut toggles: String = String::new();
    let mut sections: String = String::new();
    let mut seen: Vec<String> = Vec::new();
    let n: usize = config.servers.len();
    let mut i: usize = 0;
    assert(toggles@ =~= toggles_text(names.take(0)));
    assert(sections@ =~= sections_text(names, servers, 0));
    assert(crate::text::texts(seen@) =~= names_seen(names, servers, 0));
    while i < n
        invariant
            names == config.servers.pairs(),
            servers == config.servers.values(),
            n == names.len(),
            i <= n,
            toggles@ == toggles_text(names.take(i as int)),
            sections@ == sections_text(names, servers, i as nat),
            crate::text::texts(seen@) == names_seen(names, servers, i as nat),
        decreases n - i,
    {
        assert(names.take(i + 1).drop_last() =~= names.take(i as int));
        assert(names.take(i + 1).last() == names[i as int]);
        let name: &String = config.servers.name_at(i);
        let srv: &ServerConfig = config.servers.value_at(i);
        if !is_set_aside(name.as_str()) {
            match &srv.env_toggle {
                Some(t) => {
                    toggles.append(t.as_str());
                    toggles.append("=true\n");
                },
                None => {},
            }
            let mut fresh = fresh_of(&seen, srv);
            let ghost added = crate::text::texts(fresh@);
            let block = section(name.as_str(), &fresh);
            sections.append(block.as_str());
            let ghost before = seen@;
            seen.append(&mut fresh);
            assert(crate::text::texts(seen@) =~= crate::text::texts(before) + added);
        }
        i = i + 1;
    }
    assert(names.take(n as int) =~= names);
    let mut s = cat(
        "# MCP Proxy — Environment Configuration\n# Auto-generated from config/servers.json\n\nMCP_PORT=3000\n\n# Enable/disable servers (all enabled by default, set false to disable)\n",
        toggles.as_str(),
    );
    s.append("\n# API tokens / credentials\n");
    s.append(sections.as_str());
    s
}

// ---------------------------------------------------------------------------
// Laws
// ---------------------------------------------------------------------------

/// No variable is listed twice.
pub proof fn fresh_names_are_new(seen: Seq<Seq<char>>, names: Seq<Seq<char>>, i: int, j: int)
    requires
        0 <= i < fresh_names(seen, names).len(),
        0 <= j < fresh_names(seen, names).len(),
        fresh_names(seen, names)[i] == fresh_names(seen, names)[j],
    ensures
        i == j,
        !seen.contains(fresh_names(seen, names)[i]),
    decreases names.len(),
{
    let before = fresh_names(seen, names.drop_last());
    if i < before.len() && j < before.len() {
        fresh_names_are_new(seen, names.drop_last(), i, j);
    } else if i < before.len() {
        assert(before.contains(before[i]));
    } else if j < before.len() {
        assert(before.contains(before[j]));
    }
}

/// The npm packages are those of the servers that are installed by npm and not
/// set aside.
pub proof fn npm_packages_are_those_of_servers(
    servers: Seq<(Seq<char>, ServerView)>,
    package: Seq<char>,
)
    ensures
        npm_packages(servers).contains(package) == exists|i: int|
            0 <= i < servers.len() && (#[trigger] servers[i]).1.install == Some(
                InstallView::Npm { package },
            ) && !(servers[i].0.len() > 0 && servers[i].0[0] == '_'),
    decreases servers.len(),
{
    if servers.len() > 0 {
        let rest = servers.drop_last();
        npm_packages_are_those_of_servers(rest, package);
        let last = servers.last();
        assert(servers[servers.len() - 1] == last);
        match last.1.install {
            Some(InstallView::Npm { package: p }) => {
                crate::picked::lemma_push_contains(npm_packages(rest), p, package);
            },
            _ => {},
        }
        if npm_packages(rest).contains(package) {
            let i = choose|i: int|
                0 <= i < rest.len() && (#[trigger] rest[i]).1.install == Some(
                    InstallView::Npm { package },
                ) && !(rest[i].0.len() > 0 && rest[i].0[0] == '_');
            assert(servers[i] == rest[i]);
        }
        if exists|i: int|
            0 <= i < servers.len() && (#[trigger] servers[i]).1.install == Some(
                InstallView::Npm { package },
            ) && !(servers[i].0.len() > 0 && servers[i].0[0] == '_') {
            let i = choose|i: int|
                0 <= i < servers.len() && (#[trigger] servers[i]).1.install == Some(
                    InstallView::Npm { package },
                ) && !(servers[i].0.len() > 0 && servers[i].0[0] == '_');
            if i < rest.len() {
                assert(rest[i] == servers[i]);
            }
        }
    }
}

/// The pip packages are those of the servers that are installed by pip and not
/// set aside.
pub proof fn pip_packages_are_those_of_servers(
    servers: Seq<(Seq<char>, ServerView)>,
    package: Seq<char>,
)
    ensures
        pip_packages(servers).contains(package) == exists|i: int|
            0 <= i < servers.len() && (#[trigger] servers[i]).1.install == Some(
                InstallView::Pip { package },
            ) && !(servers[i].0.len() > 0 && servers[i].0[0] == '_'),
    decreases servers.len(),
{
    if servers.len() > 0 {
        let rest = servers.drop_last();
        pip_packages_are_those_of_servers(rest, package);
        let last = servers.last();
        assert(servers[servers.len() - 1] == last);
        match last.1.install {
            Some(InstallView::Pip { package: p }) => {
                crate::picked::lemma_push_contains(pip_packages(rest), p, package);
            },
            _ => {},
        }
        if pip_packages(rest).contains(package) {
            let i = choose|i: int|
                0 <= i < rest.len() && (#[trigger] rest[i]).1.install == Some(
                    InstallView::Pip { package },
                ) && !(rest[i].0.len() > 0 && rest[i].0[0] == '_');
            assert(servers[i] == rest[i]);
        }
        if exists|i: int|
            0 <= i < servers.len() && (#[trigger] servers[i]).1.install == Some(
                InstallView::Pip { package },
            ) && !(servers[i].0.len() > 0 && servers[i].0[0] == '_') {
            let i = choose|i: int|
                0 <= i < servers.len() && (#[trigger] servers[i]).1.install == Some(
                    InstallView::Pip { package },
                ) && !(servers[i].0.len() > 0 && servers[i].0[0] == '_');
            if i < rest.len() {
                assert(rest[i] == servers[i]);
            }
        }
    }
}

/// The file installs every package and fetches every binary of the servers that
/// are not set aside.
pub proof fn image_has_every_package(servers: Seq<(Seq<char>, ServerView)>, i: int)
    requires
        0 <= i < servers.len(),
        !(servers[i].0.len() > 0 && servers[i].0[0] == '_'),
    ensures
        servers[i].1.install matches Some(InstallView::Npm { package })
            ==> crate::text::contains_pat(dockerfile_text(servers), package),
        servers[i].1.install matches Some(InstallView::Pip { package })
            ==> crate::text::contains_pat(dockerfile_text(servers), package)
            && crate::text::contains_pat(dockerfile_text(servers), "python3-pip"@),
        servers[i].1.install matches Some(InstallView::Binary { url, binary, .. }) ==> (
        crate::text::contains_pat(dockerfile_text(servers), url) && crate::text::contains_pat(
            dockerfile_text(servers),
            "chmod +x /usr/local/bin/"@ + binary,
        )),
{
    let npm_text = packages_text("\nRUN npm install -g \\\n    "@, npm_packages(servers));
    let pip_text = packages_text(
        "\nRUN pip3 install --break-system-packages \\\n    "@,
        pip_packages(servers),
    );
    let bins = binaries_text(servers);
    let apt = apt_text(pip_packages(servers).len() > 0, needs_unzip(servers));
    let first = "FROM node:lts-slim\n\n"@;
    let d = dockerfile_text(servers);
    assert(servers[i].1.install == servers[i].1.install);
    match servers[i].1.install {
        Some(InstallView::Npm { package }) => {
            npm_packages_are_those_of_servers(servers, package);
            lemma_package_stands(
                "\nRUN npm install -g \\\n    "@,
                npm_packages(servers),
                package,
            );
            assert(d =~= (first + apt + bins) + npm_text + (pip_text + closing_text()));
            crate::text::lemma_stands_in_whole(
                first + apt + bins,
                npm_text,
                pip_text + closing_text(),
                package,
            );
        },
        Some(InstallView::Pip { package }) => {
            pip_packages_are_those_of_servers(servers, package);
            lemma_package_stands(
                "\nRUN pip3 install --break-system-packages \\\n    "@,
                pip_packages(servers),
                package,
            );
            assert(d =~= (first + apt + bins + npm_text) + pip_text + closing_text());
            crate::text::lemma_stands_in_whole(
                first + apt + bins + npm_text,
                pip_text,
                closing_text(),
                package,
            );
            lemma_pip_stands(needs_unzip(servers));
            assert(d =~= first + apt + (bins + npm_text + pip_text + closing_text()));
            crate::text::lemma_stands_in_whole(
                first,
                apt,
                bins + npm_text + pip_text + closing_text(),
                "python3-pip"@,
            );
        },
        Some(InstallView::Binary { url, extract, binary }) => {
            lemma_binary_stands(servers, i);
            assert(d =~= (first + apt) + bins + (npm_text + pip_text + closing_text()));
            crate::text::lemma_stands_in_whole(
                first + apt,
                bins,
                npm_text + pip_text + closing_text(),
                url,
            );
            crate::text::lemma_stands_in_whole(
                first + apt,
                bins,
                npm_text + pip_text + closing_text(),
                "chmod +x /usr/local/bin/"@ + binary,
            );
        },
        _ => {},
    }
}

proof fn lemma_package_stands(command: Seq<char>, packages: Seq<Seq<char>>, package: Seq<char>)
    requires
        packages.contains(package),
    ensures
        crate::text::contains_pat(packages_text(command, packages), package),
{
    let k = choose|k: int| 0 <= k < packages.len() && packages[k] == package;
    let sep = " \\\n    "@;
    crate::text::joined_holds_each_part(packages, sep, k);
    crate::text::lemma_stands_in_whole(
        command,
        crate::text::joined(packages, sep),
        "\n"@,
        package,
    );
}

proof fn lemma_pip_stands(unzip: bool)
    ensures
        crate::text::contains_pat(apt_text(true, unzip), "python3-pip"@),
{
    reveal_strlit(" \\\n    python3 \\\n    python3-pip");
    reveal_strlit("python3-pip");
    let p = " \\\n    python3 \\\n    python3-pip"@;
    let q = "python3-pip"@;
    let h = p.subrange(0, p.len() - q.len());
    let none = Seq::<char>::empty();
    assert(p =~= h + q + none);
    crate::text::lemma_part_stands(h, q, none);
    let a = "RUN apt-get update && apt-get install -y --no-install-recommends \\\n    curl \\\n    ca-certificates"@;
    let b = (if unzip {
        " \\\n    unzip"@
    } else {
        ""@
    }) + " && \\\n    rm -rf /var/lib/apt/lists/*\n"@;
    assert(apt_text(true, unzip) =~= a + p + b);
    crate::text::lemma_stands_in_whole(a, p, b, q);
}

proof fn lemma_binary_stands(servers: Seq<(Seq<char>, ServerView)>, i: int)
    requires
        0 <= i < servers.len(),
        !(servers[i].0.len() > 0 && servers[i].0[0] == '_'),
    ensures
        servers[i].1.install matches Some(InstallView::Binary { url, binary, .. })
            ==> crate::text::contains_pat(binaries_text(servers), url)
            && crate::text::contains_pat(
            binaries_text(servers),
            "chmod +x /usr/local/bin/"@ + binary,
        ),
    decreases servers.len(),
{
    let none = Seq::<char>::empty();
    let rest = servers.drop_last();
    let before = binaries_text(rest);
    let all = binaries_text(servers);
    match servers[i].1.install {
        Some(InstallView::Binary { url, extract, binary }) => {
            if i < rest.len() {
                assert(rest[i] == servers[i]);
                lemma_binary_stands(rest, i);
                assert(all.len() >= before.len() && all.subrange(0, before.len() as int)
                    =~= before);
                let more = all.subrange(before.len() as int, all.len() as int);
                assert(all =~= none + before + more);
                crate::text::lemma_stands_in_whole(none, before, more, url);
                crate::text::lemma_stands_in_whole(
                    none,
                    before,
                    more,
                    "chmod +x /usr/local/bin/"@ + binary,
                );
            } else {
                let name = servers[i].0;
                let dl = "/tmp/"@ + name + "-dl"@;
                let ex = "/tmp/"@ + name + "-ex"@;
                let steps = crate::docker::binary_steps(url, extract, binary, dl, ex);
                crate::docker::binary_is_fetched_and_put_in_place(url, extract, binary, dl, ex);
                assert(all =~= before + steps + none);
                crate::text::lemma_stands_in_whole(
                    before,
                    steps,
                    none,
                    "chmod +x /usr/local/bin/"@ + binary,
                );
                let pat = "curl -fsSL \""@ + url + "\" -o "@ + dl;
                crate::text::lemma_stands_in_whole(before, steps, none, pat);
                assert("curl -fsSL \""@ + url + ("\" -o "@ + dl) =~= pat);
                lemma_inner_stands(all, "curl -fsSL \""@, url, "\" -o "@ + dl);
            }
        },
        _ => {},
    }
}

proof fn lemma_inner_stands(s: Seq<char>, a: Seq<char>, b: Seq<char>, c: Seq<char>)
    requires
        crate::text::contains_pat(s, a + b + c),
    ensures
        crate::text::contains_pat(s, b),
{
    let p = a + b + c;
    let i = choose|i: int| crate::text::occurs_at(s, p, i);
    let k = i + a.len();
    assert(s.subrange(i, i + p.len()).subrange(a.len() as int, (a.len() + b.len()) as int)
        =~= b);
    assert(s.subrange(k, k + b.len()) =~= s.subrange(i, i + p.len()).subrange(
        a.len() as int,
        (a.len() + b.len()) as int,
    ));
    assert(crate::text::occurs_at(s, b, k));
}

/// The variables of a server that were not seen before are listed, each once.
pub proof fn fresh_names_are_the_unseen(
    seen: Seq<Seq<char>>,
    names: Seq<Seq<char>>,
    name: Seq<char>,
)
    ensures
        fresh_names(seen, names).contains(name) == (names.contains(name) && !seen.contains(name)),
    decreases names.len(),
{
    if names.len() > 0 {
        let rest = names.drop_last();
        fresh_names_are_the_unseen(seen, rest, name);
        fresh_names_are_the_unseen(seen, rest, names.last());
        crate::picked::lemma_push_contains(fresh_names(seen, rest), names.last(), name);
        crate::picked::lemma_push_contains(rest, names.last(), name);
        assert(names =~= rest.push(names.last()));
    }
}

/// The example has a line for every variable that a server that is not set aside
/// refers to.
pub proof fn every_variable_is_listed(
    names: Seq<(Seq<char>, ServerView)>,
    servers: Seq<ServerConfig>,
    n: nat,
    i: int,
    key: Seq<char>,
)
    requires
        0 <= i < n,
        !(names[i].0.len() > 0 && names[i].0[0] == '_'),
        server_names(servers[i]).contains(key),
    ensures
        names_seen(names, servers, n).contains(key),
        crate::text::contains_pat(sections_text(names, servers, n), key + "=\n"@),
    decreases n,
{
    let m = (n - 1) as nat;
    let seen = names_seen(names, servers, m);
    let before = sections_text(names, servers, m);
    let none = Seq::<char>::empty();
    let own = server_names(servers[n - 1]);
    let vars = fresh_names(seen, own);
    if i < n - 1 || seen.contains(key) {
        if i < n - 1 {
            every_variable_is_listed(names, servers, m, i, key);
        } else {
            lemma_seen_is_listed(names, servers, m, key);
        }
        if !crate::config::set_aside(names[n - 1].0) {
            crate::picked::lemma_add_contains(seen, vars, key);
            let more = section_text(names[n - 1].0, vars);
            assert(before + more =~= none + before + more);
            crate::text::lemma_stands_in_whole(none, before, more, key + "=\n"@);
        }
    } else {
        fresh_names_are_the_unseen(seen, own, key);
        crate::picked::lemma_add_contains(seen, vars, key);
        lemma_in_section(names[n - 1].0, vars, key);
        let more = section_text(names[n - 1].0, vars);
        assert(before + more =~= before + more + none);
        crate::text::lemma_stands_in_whole(before, more, none, key + "=\n"@);
    }
}

proof fn lemma_in_section(name: Seq<char>, vars: Seq<Seq<char>>, key: Seq<char>)
    requires
        vars.contains(key),
    ensures
        crate::text::contains_pat(section_text(name, vars), key + "=\n"@),
{
    lemma_in_lines(vars, key);
    let head = "\n# "@ + name + "\n"@;
    let none = Seq::<char>::empty();
    assert(section_text(name, vars) =~= head + lines_text(vars) + none);
    crate::text::lemma_stands_in_whole(head, lines_text(vars), none, key + "=\n"@);
}

proof fn lemma_in_lines(vars: Seq<Seq<char>>, key: Seq<char>)
    requires
        vars.contains(key),
    ensures
        crate::text::contains_pat(lines_text(vars), key + "=\n"@),
    decreases vars.len(),
{
    let rest = vars.drop_last();
    let none = Seq::<char>::empty();
    let pat = key + "=\n"@;
    if vars.last() == key {
        assert(lines_text(vars) =~= lines_text(rest) + pat + none);
        crate::text::lemma_part_stands(lines_text(rest), pat, none);
    } else {
        let k = choose|k: int| 0 <= k < vars.len() && vars[k] == key;
        assert(rest[k] == key);
        lemma_in_lines(rest, key);
        assert(lines_text(vars) =~= none + lines_text(rest) + (vars.last() + "=\n"@));
        crate::text::lemma_stands_in_whole(
            none,
            lines_text(rest),
            vars.last() + "=\n"@,
            pat,
        );
    }
}

proof fn lemma_seen_is_listed(
    names: Seq<(Seq<char>, ServerView)>,
    servers: Seq<ServerConfig>,
    n: nat,
    key: Seq<char>,
)
    requires
        names_seen(names, servers, n).contains(key),
    ensures
        crate::text::contains_pat(sections_text(names, servers, n), key + "=\n"@),
    decreases n,
{
    if n > 0 {
        let m = (n - 1) as nat;
        let seen = names_seen(names, servers, m);
        let before = sections_text(names, servers, m);
        let none = Seq::<char>::empty();
        let pat = key + "=\n"@;
        if crate::config::set_aside(names[n - 1].0) {
            lemma_seen_is_listed(names, servers, m, key);
        } else {
            let vars = fresh_names(seen, server_names(servers[n - 1]));
            let more = section_text(names[n - 1].0, vars);
            crate::picked::lemma_add_contains(seen, vars, key);
            if seen.contains(key) {
                lemma_seen_is_listed(names, servers, m, key);
                assert(before + more =~= none + before + more);
                crate::text::lemma_stands_in_whole(none, before, more, pat);
            } else {
                lemma_in_section(names[n - 1].0, vars, key);
                assert(before + more =~= before + more + none);
                crate::text::lemma_stands_in_whole(before, more, none, pat);
            }
        }
    }
}

/// The variables of a server are those of its environment, then those of its
/// arguments.
pub proof fn server_names_are_all_references(
    srv: ServerConfig,
    env: Seq<(Seq<char>, Seq<char>)>,
    args: Seq<Seq<char>>,
    i: int,
    key: Seq<char>,
)
    requires
        env == srv.env.pairs(),
        args == crate::text::texts(srv.args@),
    ensures
        0 <= i < env.len() && crate::expand::var_names(env[i].1).contains(key) ==> server_names(
            srv,
        ).contains(key),
        0 <= i < args.len() && crate::expand::var_names(args[i]).contains(key) ==> server_names(
            srv,
        ).contains(key),
{
    crate::picked::lemma_add_contains(env_names(env), arg_names(args), key);
    if 0 <= i < env.len() && crate::expand::var_names(env[i].1).contains(key) {
        lemma_env_name(env, i, key);
    }
    if 0 <= i < args.len() && crate::expand::var_names(args[i]).contains(key) {
        lemma_arg_name(args, i, key);
    }
}

proof fn lemma_env_name(env: Seq<(Seq<char>, Seq<char>)>, i: int, key: Seq<char>)
    requires
        0 <= i < env.len(),
        crate::expand::var_names(env[i].1).contains(key),
    ensures
        env_names(env).contains(key),
    decreases env.len(),
{
    let rest = env.drop_last();
    crate::picked::lemma_add_contains(
        env_names(rest),
        crate::expand::var_names(env.last().1),
        key,
    );
    if i < rest.len() {
        assert(rest[i] == env[i]);
        lemma_env_name(rest, i, key);
    }
}

proof fn lemma_arg_name(args: Seq<Seq<char>>, i: int, key: Seq<char>)
    requires
        0 <= i < args.len(),
        crate::expand::var_names(args[i]).contains(key),
    ensures
        arg_names(args).contains(key),
    decreases args.len(),
{
    let rest = args.drop_last();
    crate::picked::lemma_add_contains(
        arg_names(rest),
        crate::expand::var_names(args.last()),
        key,
    );
    if i < rest.len() {
        assert(rest[i] == args[i]);
        lemma_arg_name(rest, i, key);
    }
}

/// The example has the toggle of every server that has one and is not set
/// aside, switched on.
pub proof fn every_toggle_is_listed(servers: Seq<(Seq<char>, ServerView)>, i: int)
    requires
        0 <= i < servers.len(),
        !(servers[i].0.len() > 0 && servers[i].0[0] == '_'),
        servers[i].1.env_toggle is Some,
    ensures
        crate::text::contains_pat(
            toggles_text(servers),
            servers[i].1.env_toggle->0 + "=true\n"@,
        ),
    decreases servers.len(),
{
    let rest = servers.drop_last();
    let none = Seq::<char>::empty();
    let before = toggles_text(rest);
    let all = toggles_text(servers);
    let pat = servers[i].1.env_toggle->0 + "=true\n"@;
    if i < rest.len() {
        assert(rest[i] == servers[i]);
        every_toggle_is_listed(rest, i);
        assert(all.len() >= before.len() && all.subrange(0, before.len() as int) =~= before);
        let more = all.subrange(before.len() as int, all.len() as int);
        assert(all =~= none + before + more);
        crate::text::lemma_stands_in_whole(none, before, more, pat);
    } else {
        assert(all =~= before + pat + none);
        crate::text::lemma_part_stands(before, pat, none);
    }
}

/// The example has the toggles, then the variables of the servers.
pub proof fn example_has_toggles_and_variables(
    names: Seq<(Seq<char>, ServerView)>,
    servers: Seq<ServerConfig>,
    pat: Seq<char>,
)
    ensures
        crate::text::contains_pat(toggles_text(names), pat) ==> crate::text::contains_pat(
            env_example_text(names, servers),
            pat,
        ),
        crate::text::contains_pat(sections_text(names, servers, names.len()), pat)
            ==> crate::text::contains_pat(env_example_text(names, servers), pat),
        crate::text::contains_pat(
            env_example_text(names, servers),
            "\n# API tokens / credentials\n"@,
        ),
{
    let a = "# MCP Proxy — Environment Configuration\n# Auto-generated from config/servers.json\n\nMCP_PORT=3000\n\n# Enable/disable servers (all enabled by default, set false to disable)\n"@;
    let t = toggles_text(names);
    let m = "\n# API tokens / credentials\n"@;
    let s = sections_text(names, servers, names.len());
    let none = Seq::<char>::empty();
    let e = env_example_text(names, servers);
    assert(e =~= a + t + (m + s));
    assert(e =~= (a + t) + m + s);
    assert(e =~= (a + t + m) + s + none);
    if crate::text::contains_pat(t, pat) {
        crate::text::lemma_stands_in_whole(a, t, m + s, pat);
    }
    if crate::text::contains_pat(s, pat) {
        crate::text::lemma_stands_in_whole(a + t + m, s, none, pat);
    }
    crate::text::lemma_part_stands(a + t, m, s);
}

/// Unzip is needed if and only if a server that is not set aside is a binary in a
/// zip archive.
pub proof fn unzip_is_needed_for_zip_archives(servers: Seq<(Seq<char>, ServerView)>)
    ensures
        needs_unzip(servers) == exists|i: int|
            0 <= i < servers.len() && !((#[trigger] servers[i]).0.len() > 0 && servers[i].0[0]
                == '_') && servers[i].1.install is Some && servers[i].1.install->0 is Binary
                && servers[i].1.install->0->extract == Some(ExtractMethod::Zip),
    decreases servers.len(),
{
    if servers.len() > 0 {
        let rest = servers.drop_last();
        unzip_is_needed_for_zip_archives(rest);
        assert(servers[servers.len() - 1] == servers.last());
        if needs_unzip(rest) {
            let i = choose|i: int|
                0 <= i < rest.len() && !((#[trigger] rest[i]).0.len() > 0 && rest[i].0[0] == '_')
                    && rest[i].1.install is Some && rest[i].1.install->0 is Binary
                    && rest[i].1.install->0->extract == Some(ExtractMethod::Zip);
            assert(servers[i] == rest[i]);
        }
        if exists|i: int|
            0 <= i < servers.len() && !((#[trigger] servers[i]).0.len() > 0 && servers[i].0[0]
                == '_') && servers[i].1.install is Some && servers[i].1.install->0 is Binary
                && servers[i].1.install->0->extract == Some(ExtractMethod::Zip) {
            let i = choose|i: int|
                0 <= i < servers.len() && !((#[trigger] servers[i]).0.len() > 0 && servers[i].0[0]
                    == '_') && servers[i].1.install is Some && servers[i].1.install->0 is Binary
                    && servers[i].1.install->0->extract == Some(ExtractMethod::Zip);
            if i < rest.len() {
                assert(rest[i] == servers[i]);
            }
        }
    }
}

} // verus!
