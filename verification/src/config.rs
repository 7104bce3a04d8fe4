//! Configuration data model and its rules.
//!
//! The primary config (`servers.json`) defines the backend servers. A separate
//! `profiles.json` holds client-side profiles with per-server overrides and
//! lists of servers. A user-level `config.json` keeps the active profile.
use vstd::prelude::*;

use crate::expand::{Marks, Texts, expand_all, expand_within};
use crate::json::Json;
use crate::names::{Duplicate, NameMap, SameView};
use crate::picked::picked;
use crate::text::{
    cat, contains_text, copy_opt, copy_texts, lower_ascii, same_opt, same_text, same_texts,
};

pub use crate::expand::extract_var_names;

verus! {

// ---------------------------------------------------------------------------
// Install method
// ---------------------------------------------------------------------------

/// How a server is installed.
#[derive(Debug)]
pub enum InstallConfig {
    Npm { package: String },
    Pip { package: String },
    Binary { url: String, extract: Option<ExtractMethod>, binary: String },
    Npx,
}

/// How a downloaded file is unpacked.
#[derive(Debug, Clone, Copy, PartialEq, Eq, Structural)]
pub enum ExtractMethod {
    Tar,
    Zip,
    /// The file is the binary itself.
    Plain,
}

/// Where a server that has an `install` config runs.
#[derive(Debug, Clone, Copy, PartialEq, Eq, Structural)]
pub enum Runtime {
    /// In an automatically built Docker container.
    Docker,
    /// Directly on the host.
    Local,
}

impl Default for Runtime {
    fn default() -> (r: Self)
        ensures
            r == Runtime::Docker,
    {
        Runtime::Docker
    }
}

/// What an install method stands for.
#[verifier::ext_equal]
pub enum InstallView {
    Npm { package: Seq<char> },
    Pip { package: Seq<char> },
    Binary { url: Seq<char>, extract: Option<ExtractMethod>, binary: Seq<char> },
    Npx,
}

impl View for InstallConfig {
    type V = InstallView;

    open spec fn view(&self) -> InstallView {
        match *self {
            InstallConfig::Npm { package } => InstallView::Npm { package: package@ },
            InstallConfig::Pip { package } => InstallView::Pip { package: package@ },
            InstallConfig::Binary { url, extract, binary } => InstallView::Binary {
                url: url@,
                extract,
                binary: binary@,
            },
            InstallConfig::Npx => InstallView::Npx,
        }
    }
}

impl Duplicate for InstallConfig {
    fn duplicate(&self) -> (r: Self) {
        match self {
            InstallConfig::Npm { package } => InstallConfig::Npm { package: package.clone() },
            InstallConfig::Pip { package } => InstallConfig::Pip { package: package.clone() },
            InstallConfig::Binary { url, extract, binary } => InstallConfig::Binary {
                url: url.clone(),
                extract: *extract,
                binary: binary.clone(),
            },
            InstallConfig::Npx => InstallConfig::Npx,
        }
    }
}

impl SameView for InstallConfig {
    fn same(&self, other: &Self) -> (r: bool) {
        match (self, other) {
            (InstallConfig::Npm { package: a }, InstallConfig::Npm { package: b }) => *a == *b,
            (InstallConfig::Pip { package: a }, InstallConfig::Pip { package: b }) => *a == *b,
            (
                InstallConfig::Binary { url: u, extract: e, binary: b },
                InstallConfig::Binary { url: v, extract: f, binary: c },
            ) => *u == *v && *b == *c && same_extract(*e, *f),
            (InstallConfig::Npx, InstallConfig::Npx) => true,
            _ => false,
        }
    }
}

fn same_extract(a: Option<ExtractMethod>, b: Option<ExtractMethod>) -> (r: bool)
    ensures
        r == (a == b),
{
    match (a, b) {
        (Some(x), Some(y)) => x == y,
        (None, None) => true,
        _ => false,
    }
}

/// What an optional install method stands for.
pub open spec fn install_view(o: Option<InstallConfig>) -> Option<InstallView> {
    match o {
        Some(i) => Some(i@),
        None => None,
    }
}

fn copy_install(o: &Option<InstallConfig>) -> (r: Option<InstallConfig>)
    ensures
        install_view(r) == install_view(*o),
{
    match o {
        Some(i) => Some(i.duplicate()),
        None => None,
    }
}

fn same_install(a: &Option<InstallConfig>, b: &Option<InstallConfig>) -> (r: bool)
    ensures
        r == (install_view(*a) == install_view(*b)),
{
    match (a, b) {
        (Some(x), Some(y)) => x.same(y),
        (None, None) => true,
        _ => false,
    }
}

// ---------------------------------------------------------------------------
// Server configuration
// ---------------------------------------------------------------------------

/// How a backend process is shared between client sessions.
#[derive(Debug, Clone, Copy, PartialEq, Eq, Structural)]
pub enum Sharing {
    /// One instance per client session.
    Session,
    /// Shared between sessions with matching credentials for the server.
    Credentials,
    /// One instance for everyone.
    Global,
}

impl Default for Sharing {
    fn default() -> (r: Self)
        ensures
            r == Sharing::Session,
    {
        Sharing::Session
    }
}

impl Sharing {
    /// Whether this is the mode of a server that states none.
    pub fn is_default(&self) -> (r: bool)
        ensures
            r == (*self == Sharing::Session),
    {
        matches!(self, Sharing::Session)
    }
}

/// Whether this is the runtime of a server that states none.
pub fn is_default_runtime(r: &Runtime) -> (b: bool)
    ensures
        b == (*r == Runtime::Docker),
{
    matches!(r, Runtime::Docker)
}

/// The value of a flag that is on unless stated.
pub fn default_true() -> (r: bool)
    ensures
        r,
{
    true
}

/// Whether a flag is on.
pub fn is_true(v: &bool) -> (r: bool)
    ensures
        r == *v,
{
    *v
}

/// One server.
pub struct ServerConfig {
    /// How to install the server.
    pub install: Option<InstallConfig>,
    /// Where to run it. Servers without `install` always run locally.
    pub runtime: Runtime,
    /// The command to spawn.
    pub command: String,
    /// Arguments of the command, with `${VAR}` placeholders.
    pub args: Vec<String>,
    /// Extra environment variables, with `${VAR}` placeholders in the values.
    pub env: NameMap<String>,
    /// A variable that disables the server when it is `false` or `0`.
    pub env_toggle: Option<String>,
    /// How the backend is shared between sessions.
    pub shared: Sharing,
    /// Timeout of a call in seconds.
    pub timeout_secs: Option<u64>,
    /// Seconds of idleness before the backend is reaped.
    pub idle_timeout_secs: Option<u64>,
    /// Whether the backend is restarted when it crashes.
    pub auto_restart: bool,
    /// How often it is restarted at most.
    pub max_restarts: Option<u32>,
    /// Patterns of the tools to expose; if empty, all.
    pub include_tools: Vec<String>,
    /// Patterns of the tools to hide, applied after `include_tools`.
    pub exclude_tools: Vec<String>,
    /// From an alias to the tool it stands for.
    pub tool_aliases: NameMap<String>,
}

/// What a server config stands for.
#[verifier::ext_equal]
pub struct ServerView {
    pub install: Option<InstallView>,
    pub runtime: Runtime,
    pub command: Seq<char>,
    pub args: Seq<Seq<char>>,
    pub env: Texts,
    pub env_toggle: Option<Seq<char>>,
    pub shared: Sharing,
    pub timeout_secs: Option<u64>,
    pub idle_timeout_secs: Option<u64>,
    pub auto_restart: bool,
    pub max_restarts: Option<u32>,
    pub include_tools: Seq<Seq<char>>,
    pub exclude_tools: Seq<Seq<char>>,
    pub tool_aliases: Texts,
}

impl View for ServerConfig {
    type V = ServerView;

    open spec fn view(&self) -> ServerView {
        ServerView {
            install: install_view(self.install),
            runtime: self.runtime,
            command: self.command@,
            args: crate::text::texts(self.args@),
            env: self.env@,
            env_toggle: crate::text::opt_text(self.env_toggle),
            shared: self.shared,
            timeout_secs: self.timeout_secs,
            idle_timeout_secs: self.idle_timeout_secs,
            auto_restart: self.auto_restart,
            max_restarts: self.max_restarts,
            include_tools: crate::text::texts(self.include_tools@),
            exclude_tools: crate::text::texts(self.exclude_tools@),
            tool_aliases: self.tool_aliases@,
        }
    }
}

/// A server that states nothing but what it must.
pub open spec fn default_server() -> ServerView {
    ServerView {
        install: None,
        runtime: Runtime::Docker,
        command: Seq::empty(),
        args: Seq::empty(),
        env: Map::empty(),
        env_toggle: None,
        shared: Sharing::Session,
        timeout_secs: None,
        idle_timeout_secs: None,
        auto_restart: true,
        max_restarts: None,
        include_tools: Seq::empty(),
        exclude_tools: Seq::empty(),
        tool_aliases: Map::empty(),
    }
}

impl Default for ServerConfig {
    fn default() -> (r: Self)
        ensures
            r@ == default_server(),
    {
        let r = ServerConfig {
            install: None,
            runtime: Runtime::Docker,
            command: String::new(),
            args: Vec::new(),
            env: NameMap::new(),
            env_toggle: None,
            shared: Sharing::Session,
            timeout_secs: None,
            idle_timeout_secs: None,
            auto_restart: true,
            max_restarts: None,
            include_tools: Vec::new(),
            exclude_tools: Vec::new(),
            tool_aliases: NameMap::new(),
        };
        assert(r@ =~= default_server());
        r
    }
}

impl Duplicate for ServerConfig {
    fn duplicate(&self) -> (r: Self)
        ensures
            r.env.pairs() == self.env.pairs(),
            r.tool_aliases.pairs() == self.tool_aliases.pairs(),
    {
        ServerConfig {
            install: copy_install(&self.install),
            runtime: self.runtime,
            command: self.command.clone(),
            args: copy_texts(&self.args),
            env: self.env.duplicate(),
            env_toggle: copy_opt(&self.env_toggle),
            shared: self.shared,
            timeout_secs: self.timeout_secs,
            idle_timeout_secs: self.idle_timeout_secs,
            auto_restart: self.auto_restart,
            max_restarts: self.max_restarts,
            include_tools: copy_texts(&self.include_tools),
            exclude_tools: copy_texts(&self.exclude_tools),
            tool_aliases: self.tool_aliases.duplicate(),
        }
    }
}

impl SameView for ServerConfig {
    fn same(&self, other: &Self) -> (r: bool) {
        let r = same_install(&self.install, &other.install) && self.runtime == other.runtime
            && self.command == other.command && same_texts(&self.args, &other.args)
            && self.env.same(&other.env) && same_opt(&self.env_toggle, &other.env_toggle)
            && self.shared == other.shared && self.timeout_secs == other.timeout_secs
            && self.idle_timeout_secs == other.idle_timeout_secs && self.auto_restart
            == other.auto_restart && self.max_restarts == other.max_restarts && same_texts(
            &self.include_tools,
            &other.include_tools,
        ) && same_texts(&self.exclude_tools, &other.exclude_tools) && self.tool_aliases.same(
            &other.tool_aliases,
        );
        r
    }
}

// ---------------------------------------------------------------------------
// Custom tools
// ---------------------------------------------------------------------------

/// A tool defined in the config itself.
pub enum CustomToolConfig {
    Shell {
        description: String,
        input_schema: Json,
        command: String,
        env_toggle: Option<String>,
    },
    Http {
        description: String,
        input_schema: Json,
        url: String,
        method: Option<String>,
        headers: Option<NameMap<String>>,
        body: Option<Json>,
        env_toggle: Option<String>,
    },
}

/// What a custom tool stands for.
#[verifier::ext_equal]
pub enum CustomToolView {
    Shell {
        description: Seq<char>,
        input_schema: crate::json::JsonView,
        command: Seq<char>,
        env_toggle: Option<Seq<char>>,
    },
    Http {
        description: Seq<char>,
        input_schema: crate::json::JsonView,
        url: Seq<char>,
        method: Option<Seq<char>>,
        headers: Option<Texts>,
        body: Option<crate::json::JsonView>,
        env_toggle: Option<Seq<char>>,
    },
}

/// What optional headers stand for.
pub open spec fn headers_view(o: Option<NameMap<String>>) -> Option<Texts> {
    match o {
        Some(m) => Some(m@),
        None => None,
    }
}

/// What an optional JSON value stands for.
pub open spec fn opt_json(o: Option<Json>) -> Option<crate::json::JsonView> {
    match o {
        Some(j) => Some(j@),
        None => None,
    }
}

/// Copies an optional JSON value.
pub fn copy_opt_json(o: &Option<Json>) -> (r: Option<Json>)
    ensures
        opt_json(r) == opt_json(*o),
{
    match o {
        Some(j) => Some(j.duplicate()),
        None => None,
    }
}

fn same_opt_json(a: &Option<Json>, b: &Option<Json>) -> (r: bool)
    ensures
        r == (opt_json(*a) == opt_json(*b)),
{
    match (a, b) {
        (Some(x), Some(y)) => x.same(y),
        (None, None) => true,
        _ => false,
    }
}

fn copy_opt_map(o: &Option<NameMap<String>>) -> (r: Option<NameMap<String>>)
    ensures
        headers_view(r) == headers_view(*o),
{
    match o {
        Some(m) => Some(m.duplicate()),
        None => None,
    }
}

fn same_opt_map(a: &Option<NameMap<String>>, b: &Option<NameMap<String>>) -> (r: bool)
    ensures
        r == (headers_view(*a) == headers_view(*b)),
{
    match (a, b) {
        (Some(x), Some(y)) => x.same(y),
        (None, None) => true,
        _ => false,
    }
}

impl View for CustomToolConfig {
    type V = CustomToolView;

    open spec fn view(&self) -> CustomToolView {
        match *self {
            CustomToolConfig::Shell { description, input_schema, command, env_toggle } =>
                CustomToolView::Shell {
                description: description@,
                input_schema: input_schema@,
                command: command@,
                env_toggle: crate::text::opt_text(env_toggle),
            },
            CustomToolConfig::Http {
                description,
                input_schema,
                url,
                method,
                headers,
                body,
                env_toggle,
            } => CustomToolView::Http {
                description: description@,
                input_schema: input_schema@,
                url: url@,
                method: crate::text::opt_text(method),
                headers: headers_view(headers),
                body: opt_json(body),
                env_toggle: crate::text::opt_text(env_toggle),
            },
        }
    }
}

impl Duplicate for CustomToolConfig {
    fn duplicate(&self) -> (r: Self) {
        match self {
            CustomToolConfig::Shell { description, input_schema, command, env_toggle } =>
                CustomToolConfig::Shell {
                description: description.clone(),
                input_schema: input_schema.duplicate(),
                command: command.clone(),
                env_toggle: copy_opt(env_toggle),
            },
            CustomToolConfig::Http {
                description,
                input_schema,
                url,
                method,
                headers,
                body,
                env_toggle,
            } => CustomToolConfig::Http {
                description: description.clone(),
                input_schema: input_schema.duplicate(),
                url: url.clone(),
                method: copy_opt(method),
                headers: copy_opt_map(headers),
                body: copy_opt_json(body),
                env_toggle: copy_opt(env_toggle),
            },
        }
    }
}

impl SameView for CustomToolConfig {
    fn same(&self, other: &Self) -> (r: bool) {
        match (self, other) {
            (
                CustomToolConfig::Shell {
                    description: d1,
                    input_schema: i1,
                    command: c1,
                    env_toggle: t1,
                },
                CustomToolConfig::Shell {
                    description: d2,
                    input_schema: i2,
                    command: c2,
                    env_toggle: t2,
                },
            ) => *d1 == *d2 && i1.same(i2) && *c1 == *c2 && same_opt(t1, t2),
            (
                CustomToolConfig::Http {
                    description: d1,
                    input_schema: i1,
                    url: u1,
                    method: m1,
                    headers: h1,
                    body: b1,
                    env_toggle: t1,
                },
                CustomToolConfig::Http {
                    description: d2,
                    input_schema: i2,
                    url: u2,
                    method: m2,
                    headers: h2,
                    body: b2,
                    env_toggle: t2,
                },
            ) => *d1 == *d2 && i1.same(i2) && *u1 == *u2 && same_opt(m1, m2) && same_opt_map(h1, h2)
                && same_opt_json(b1, b2) && same_opt(t1, t2),
            _ => false,
        }
    }
}

impl CustomToolView {
    /// The description of the tool.
    pub open spec fn description(self) -> Seq<char> {
        match self {
            CustomToolView::Shell { description, .. } => description,
            CustomToolView::Http { description, .. } => description,
        }
    }

    /// The schema of the tool's arguments.
    pub open spec fn input_schema(self) -> crate::json::JsonView {
        match self {
            CustomToolView::Shell { input_schema, .. } => input_schema,
            CustomToolView::Http { input_schema, .. } => input_schema,
        }
    }

    /// The variable that can disable the tool.
    pub open spec fn env_toggle(self) -> Option<Seq<char>> {
        match self {
            CustomToolView::Shell { env_toggle, .. } => env_toggle,
            CustomToolView::Http { env_toggle, .. } => env_toggle,
        }
    }
}

impl CustomToolConfig {
    /// The description of the tool.
    pub fn description(&self) -> (r: &str)
        ensures
            r@ == self@.description(),
    {
        match self {
            CustomToolConfig::Shell { description, .. } => description.as_str(),
            CustomToolConfig::Http { description, .. } => description.as_str(),
        }
    }

    /// The schema of the tool's arguments.
    pub fn input_schema(&self) -> (r: &Json)
        ensures
            r@ == self@.input_schema(),
    {
        match self {
            CustomToolConfig::Shell { input_schema, .. } => input_schema,
            CustomToolConfig::Http { input_schema, .. } => input_schema,
        }
    }

    /// The variable that can disable the tool.
    pub fn env_toggle(&self) -> (r: Option<&str>)
        ensures
            crate::text::opt_slice(r) == self@.env_toggle(),
    {
        let toggle: &Option<String> = match self {
            CustomToolConfig::Shell { env_toggle, .. } => env_toggle,
            CustomToolConfig::Http { env_toggle, .. } => env_toggle,
        };
        match toggle {
            Some(t) => Some(t.as_str()),
            None => None,
        }
    }
}

// ---------------------------------------------------------------------------
// Profiles
// ---------------------------------------------------------------------------

/// A partial server config in a profile: it overrides fields of the base
/// server with the same name, or defines a new server if it has a command.
pub struct ServerOverride {
    pub install: Option<InstallConfig>,
    pub runtime: Option<Runtime>,
    pub command: Option<String>,
    pub args: Option<Vec<String>>,
    pub env: Option<NameMap<String>>,
    pub env_toggle: Option<String>,
}

/// What an override stands for.
#[verifier::ext_equal]
pub struct OverrideView {
    pub install: Option<InstallView>,
    pub runtime: Option<Runtime>,
    pub command: Option<Seq<char>>,
    pub args: Option<Seq<Seq<char>>>,
    pub env: Option<Texts>,
    pub env_toggle: Option<Seq<char>>,
}

/// What an optional list of strings stands for.
pub open spec fn opt_texts(o: Option<Vec<String>>) -> Option<Seq<Seq<char>>> {
    match o {
        Some(v) => Some(crate::text::texts(v@)),
        None => None,
    }
}

fn copy_opt_texts(o: &Option<Vec<String>>) -> (r: Option<Vec<String>>)
    ensures
        opt_texts(r) == opt_texts(*o),
{
    match o {
        Some(v) => Some(copy_texts(v)),
        None => None,
    }
}

impl View for ServerOverride {
    type V = OverrideView;

    open spec fn view(&self) -> OverrideView {
        OverrideView {
            install: install_view(self.install),
            runtime: self.runtime,
            command: crate::text::opt_text(self.command),
            args: opt_texts(self.args),
            env: headers_view(self.env),
            env_toggle: crate::text::opt_text(self.env_toggle),
        }
    }
}

/// The override that overrides nothing.
pub open spec fn no_override() -> OverrideView {
    OverrideView {
        install: None,
        runtime: None,
        command: None,
        args: None,
        env: None,
        env_toggle: None,
    }
}

impl Default for ServerOverride {
    fn default() -> (r: Self)
        ensures
            r@ == no_override(),
    {
        ServerOverride {
            install: None,
            runtime: None,
            command: None,
            args: None,
            env: None,
            env_toggle: None,
        }
    }
}

impl Duplicate for ServerOverride {
    fn duplicate(&self) -> (r: Self) {
        ServerOverride {
            install: copy_install(&self.install),
            runtime: self.runtime,
            command: copy_opt(&self.command),
            args: copy_opt_texts(&self.args),
            env: copy_opt_map(&self.env),
            env_toggle: copy_opt(&self.env_toggle),
        }
    }
}

/// `over` if it is there, else `base`.
pub open spec fn or_base<T>(over: Option<T>, base: T) -> T {
    match over {
        Some(x) => x,
        None => base,
    }
}

/// A base server with an override merged onto it: `install`, `runtime`,
/// `command`, `args` and `env_toggle` are replaced if present; `env` is merged
/// key by key, and the override's keys win; all else is inherited.
pub open spec fn merged(base: ServerView, over: OverrideView) -> ServerView {
    ServerView {
        install: if over.install is Some {
            over.install
        } else {
            base.install
        },
        runtime: or_base(over.runtime, base.runtime),
        command: or_base(over.command, base.command),
        args: or_base(over.args, base.args),
        env: match over.env {
            Some(e) => base.env.union_prefer_right(e),
            None => base.env,
        },
        env_toggle: if over.env_toggle is Some {
            over.env_toggle
        } else {
            base.env_toggle
        },
        ..base
    }
}

/// Puts all of `extra` into `base`; the names of `extra` win.
pub fn merge_names(base: &mut NameMap<String>, extra: &NameMap<String>)
    ensures
        final(base)@ == old(base)@.union_prefer_right(extra@),
{
    let n: usize = extra.len();
    let ghost before = base@;
    let mut i: usize = 0;
    assert(base@ =~= before.union_prefer_right(crate::names::map_of(extra.pairs().take(0)))) by {
        assert forall|k: Seq<char>| !crate::names::has_name(extra.pairs().take(0), k) by {}
    }
    while i < n
        invariant
            n == extra.pairs().len(),
            crate::names::distinct_names(extra.pairs()),
            i <= n,
            base@ == before.union_prefer_right(crate::names::map_of(extra.pairs().take(i as int))),
        decreases n - i,
    {
        let ghost so_far = extra.pairs().take(i as int);
        let ghost pair = extra.pairs()[i as int];
        proof {
            assert(extra.pairs().take(i + 1) =~= so_far.push(pair));
            assert(!crate::names::has_name(so_far, pair.0)) by {
                if crate::names::has_name(so_far, pair.0) {
                    let p = crate::names::place_of(so_far, pair.0);
                    assert(extra.pairs()[p].0 == extra.pairs()[i as int].0);
                }
            }
            assert(crate::names::distinct_names(so_far)) by {
                assert forall|a: int, b: int|
                    0 <= a < so_far.len() && 0 <= b < so_far.len() && so_far[a].0
                        == so_far[b].0 implies a == b by {
                    assert(extra.pairs()[a].0 == extra.pairs()[b].0);
                }
            }
            crate::names::lemma_bound(so_far, pair.0, pair.1);
        }
        base.insert(extra.name_at(i).clone(), extra.value_at(i).clone());
        assert(base@ =~= before.union_prefer_right(
            crate::names::map_of(extra.pairs().take(i + 1)),
        ));
        i = i + 1;
    }
    assert(extra.pairs().take(n as int) =~= extra.pairs());
}

impl ServerOverride {
    /// The base server with this override merged onto it.
    pub fn apply_to(&self, base: &ServerConfig) -> (r: ServerConfig)
        ensures
            r@ == merged(base@, self@),
    {
        let mut r = base.duplicate();
        if self.install.is_some() {
            r.install = copy_install(&self.install);
        }
        if let Some(runtime) = self.runtime {
            r.runtime = runtime;
        }
        if let Some(command) = &self.command {
            r.command = command.clone();
        }
        if let Some(args) = &self.args {
            r.args = copy_texts(args);
        }
        if let Some(env) = &self.env {
            merge_names(&mut r.env, env);
        }
        if self.env_toggle.is_some() {
            r.env_toggle = copy_opt(&self.env_toggle);
        }
        assert(r@ =~= merged(base@, self@));
        r
    }

    /// The server that this override defines by itself; only one with a
    /// command defines a server.
    pub fn as_server(&self) -> (r: Option<ServerConfig>)
        ensures
            r is Some == self@.command is Some,
            r matches Some(s) ==> s@ == merged(default_server(), self@),
    {
        if self.command.is_none() {
            return None;
        }
        Some(self.apply_to(&ServerConfig::default()))
    }
}

/// A profile: which servers to request from a hub, or to run, and what to
/// override.
pub struct ProfileConfig {
    /// What the profile is for.
    pub description: Option<String>,
    /// The servers to request; if empty, all.
    pub included: Vec<String>,
    /// The servers not to request.
    pub excluded: Vec<String>,
    /// Overrides by server.
    pub servers: NameMap<ServerOverride>,
}

/// What a profile stands for.
#[verifier::ext_equal]
pub struct ProfileView {
    pub description: Option<Seq<char>>,
    pub included: Seq<Seq<char>>,
    pub excluded: Seq<Seq<char>>,
    pub servers: Map<Seq<char>, OverrideView>,
}

impl View for ProfileConfig {
    type V = ProfileView;

    open spec fn view(&self) -> ProfileView {
        ProfileView {
            description: crate::text::opt_text(self.description),
            included: crate::text::texts(self.included@),
            excluded: crate::text::texts(self.excluded@),
            servers: self.servers@,
        }
    }
}

/// The profile that says nothing.
pub open spec fn empty_profile() -> ProfileView {
    ProfileView {
        description: None,
        included: Seq::empty(),
        excluded: Seq::empty(),
        servers: Map::empty(),
    }
}

impl Default for ProfileConfig {
    fn default() -> (r: Self)
        ensures
            r@ == empty_profile(),
    {
        let r = ProfileConfig {
            description: None,
            included: Vec::new(),
            excluded: Vec::new(),
            servers: NameMap::new(),
        };
        assert(r@ =~= empty_profile());
        r
    }
}

impl Duplicate for ProfileConfig {
    fn duplicate(&self) -> (r: Self) {
        ProfileConfig {
            description: copy_opt(&self.description),
            included: copy_texts(&self.included),
            excluded: copy_texts(&self.excluded),
            servers: self.servers.duplicate(),
        }
    }
}

/// The name is not on the list of excluded ones.
pub open spec fn not_excluded(excluded: Seq<Seq<char>>) -> spec_fn(Seq<char>) -> bool {
    |name: Seq<char>| !excluded.contains(name)
}

/// The profile picks servers.
pub open spec fn picks_servers(p: ProfileView) -> bool {
    p.included.len() > 0 || p.excluded.len() > 0
}

/// The servers that a profile picks, where `active` are those that there are:
/// the included ones, or all if none is included, without the excluded ones. A
/// profile that picks none by name has an empty list, which stands for all.
pub open spec fn profile_servers(p: ProfileView, active: Seq<Seq<char>>) -> Seq<Seq<char>> {
    if !picks_servers(p) {
        Seq::empty()
    } else if p.included.len() > 0 {
        picked(p.included, not_excluded(p.excluded))
    } else {
        picked(active, not_excluded(p.excluded))
    }
}

/// The profile picks servers, and excludes all that it could pick.
pub open spec fn leaves_nothing(p: ProfileView, active: Seq<Seq<char>>) -> bool {
    picks_servers(p) && profile_servers(p, active).len() == 0
}

/// The names that are not on the list of excluded ones.
fn without_excluded(names: &Vec<String>, excluded: &Vec<String>) -> (r: Vec<String>)
    ensures
        crate::text::texts(r@) == picked(
            crate::text::texts(names@),
            not_excluded(crate::text::texts(excluded@)),
        ),
{
    let ghost all = crate::text::texts(names@);
    let ghost f = not_excluded(crate::text::texts(excluded@));
    let mut out: Vec<String> = Vec::new();
    let mut i: usize = 0;
    assert(all.take(0) =~= Seq::empty());
    assert(crate::text::texts(out@) =~= picked(all.take(0), f));
    while i < names.len()
        invariant
            all == crate::text::texts(names@),
            f == not_excluded(crate::text::texts(excluded@)),
            i <= names@.len(),
            crate::text::texts(out@) == picked(all.take(i as int), f),
        decreases names@.len() - i,
    {
        proof {
            assert(all.take(i + 1) =~= all.take(i as int).push(all[i as int]));
            crate::picked::lemma_picked_push(all.take(i as int), all[i as int], f);
        }
        if !contains_text(excluded, names[i].as_str()) {
            let ghost before = out@;
            out.push(names[i].clone());
            assert(crate::text::texts(out@) =~= crate::text::texts(before).push(all[i as int]));
        }
        i = i + 1;
    }
    assert(all.take(all.len() as int) =~= all);
    out
}

impl ProfileConfig {
    /// The servers that the profile picks, where `active` are those that there
    /// are; an empty list stands for all. Nothing if the profile excludes all
    /// that it could pick.
    pub fn pick_servers(&self, active: &Vec<String>) -> (r: Option<Vec<String>>)
        ensures
            r is None == leaves_nothing(self@, crate::text::texts(active@)),
            r matches Some(v) ==> crate::text::texts(v@) == profile_servers(
                self@,
                crate::text::texts(active@),
            ),
    {
        assert(self@.included.len() == self.included@.len());
        assert(self@.excluded.len() == self.excluded@.len());
        if self.included.len() == 0 && self.excluded.len() == 0 {
            let v: Vec<String> = Vec::new();
            assert(crate::text::texts(v@) =~= Seq::empty());
            return Some(v);
        }
        let names: &Vec<String> = if self.included.len() > 0 {
            &self.included
        } else {
            active
        };
        let v = without_excluded(names, &self.excluded);
        assert(crate::text::texts(v@).len() == v@.len());
        if v.len() == 0 {
            None
        } else {
            Some(v)
        }
    }
}

/// The contents of `profiles.json`.
pub struct ProfilesFile {
    pub profiles: NameMap<ProfileConfig>,
}

impl View for ProfilesFile {
    type V = Map<Seq<char>, ProfileView>;

    open spec fn view(&self) -> Map<Seq<char>, ProfileView> {
        self.profiles@
    }
}

impl Default for ProfilesFile {
    fn default() -> (r: Self)
        ensures
            r@ == Map::<Seq<char>, ProfileView>::empty(),
    {
        ProfilesFile { profiles: NameMap::new() }
    }
}

/// The names of the profiles with their descriptions.
pub fn list_profiles(profiles: &ProfilesFile) -> (r: Vec<(&str, Option<&str>)>)
    ensures
        r@.len() == profiles.profiles.pairs().len(),
        forall|i: int|
            0 <= i < r@.len() ==> (#[trigger] r@[i]).0@ == profiles.profiles.pairs()[i].0
                && crate::text::opt_slice(r@[i].1)
                == profiles.profiles.pairs()[i].1.description,
{
    let n: usize = profiles.profiles.len();
    let mut out: Vec<(&str, Option<&str>)> = Vec::new();
    let mut i: usize = 0;
    while i < n
        invariant
            n == profiles.profiles.pairs().len(),
            i <= n,
            out@.len() == i,
            forall|k: int|
                0 <= k < i ==> (#[trigger] out@[k]).0@ == profiles.profiles.pairs()[k].0
                    && crate::text::opt_slice(out@[k].1)
                    == profiles.profiles.pairs()[k].1.description,
        decreases n - i,
    {
        let p: &ProfileConfig = profiles.profiles.value_at(i);
        let description: Option<&str> = match &p.description {
            Some(d) => Some(d.as_str()),
            None => None,
        };
        out.push((profiles.profiles.name_at(i).as_str(), description));
        i = i + 1;
    }
    out
}

// ---------------------------------------------------------------------------
// Root config and user settings
// ---------------------------------------------------------------------------

/// The contents of `servers.json`.
pub struct Config {
    pub servers: NameMap<ServerConfig>,
    pub custom_tools: NameMap<CustomToolConfig>,
}

/// What a config stands for.
#[verifier::ext_equal]
pub struct ConfigView {
    pub servers: Map<Seq<char>, ServerView>,
    pub custom_tools: Map<Seq<char>, CustomToolView>,
}

impl View for Config {
    type V = ConfigView;

    open spec fn view(&self) -> ConfigView {
        ConfigView { servers: self.servers@, custom_tools: self.custom_tools@ }
    }
}

impl Default for Config {
    fn default() -> (r: Self)
        ensures
            r.servers.pairs().len() == 0,
            r.custom_tools.pairs().len() == 0,
            r@ == (ConfigView { servers: Map::empty(), custom_tools: Map::empty() }),
    {
        Config { servers: NameMap::new(), custom_tools: NameMap::new() }
    }
}

impl Duplicate for Config {
    fn duplicate(&self) -> (r: Self)
        ensures
            r.servers.pairs() == self.servers.pairs(),
            r.custom_tools.pairs() == self.custom_tools.pairs(),
    {
        Config {
            servers: self.servers.duplicate(),
            custom_tools: self.custom_tools.duplicate(),
        }
    }
}

impl SameView for Config {
    fn same(&self, other: &Self) -> (r: bool) {
        self.servers.same(&other.servers) && self.custom_tools.same(&other.custom_tools)
    }
}

/// User-level settings.
pub struct UserConfig {
    /// The profile to use when none is given.
    pub default_profile: Option<String>,
}

impl View for UserConfig {
    type V = Option<Seq<char>>;

    open spec fn view(&self) -> Option<Seq<char>> {
        crate::text::opt_text(self.default_profile)
    }
}

impl Default for UserConfig {
    fn default() -> (r: Self)
        ensures
            r@ is None,
    {
        UserConfig { default_profile: None }
    }
}

/// The active profile.
pub fn read_active_profile(cfg: &UserConfig) -> (r: Option<String>)
    ensures
        crate::text::opt_text(r) == cfg@,
{
    copy_opt(&cfg.default_profile)
}

/// Makes `profile` the active profile; `None` clears it.
pub fn write_active_profile(cfg: &mut UserConfig, profile: Option<&str>)
    ensures
        final(cfg)@ == crate::text::opt_slice(profile),
{
    cfg.default_profile = match profile {
        Some(p) => Some(p.to_owned()),
        None => None,
    };
}

// ---------------------------------------------------------------------------
// Paths
// ---------------------------------------------------------------------------

/// `name` in the directory `dir`.
pub open spec fn path_in(dir: Seq<char>, name: Seq<char>) -> Seq<char> {
    if dir.len() == 0 {
        name
    } else if dir.last() == '/' {
        dir + name
    } else {
        dir + "/"@ + name
    }
}

/// The path of `name` in `dir`.
pub fn join_path(dir: &str, name: &str) -> (r: String)
    ensures
        r@ == path_in(dir@, name@),
{
    let n: usize = dir.unicode_len();
    if n == 0 {
        assert(dir@ + name@ =~= name@);
        return name.to_owned();
    }
    if dir.get_char(n - 1) == '/' {
        cat(dir, name)
    } else {
        let mut r = cat(dir, "/");
        r.append(name);
        r
    }
}

/// The path of `profiles.json`, beside `servers.json`: `dir` is the directory
/// of the config file, if it has one.
pub fn profiles_path(dir: Option<&str>) -> (r: String)
    ensures
        r@ == path_in(or_base(crate::text::opt_slice(dir), "."@), "profiles.json"@),
{
    match dir {
        Some(d) => join_path(d, "profiles.json"),
        None => join_path(".", "profiles.json"),
    }
}

/// The default path of `servers.json`, given the home directory.
pub fn default_config_path(home: Option<&str>) -> (r: String)
    ensures
        r@ == path_in(
            or_base(crate::text::opt_slice(home), "."@),
            ".config/mcp-proxy/servers.json"@,
        ),
{
    match home {
        Some(d) => join_path(d, ".config/mcp-proxy/servers.json"),
        None => join_path(".", ".config/mcp-proxy/servers.json"),
    }
}

/// The path of the user settings, given the home directory.
pub fn user_config_path(home: Option<&str>) -> (r: String)
    ensures
        r@ == path_in(
            or_base(crate::text::opt_slice(home), "."@),
            ".config/mcp-proxy/config.json"@,
        ),
{
    match home {
        Some(d) => join_path(d, ".config/mcp-proxy/config.json"),
        None => join_path(".", ".config/mcp-proxy/config.json"),
    }
}

// ---------------------------------------------------------------------------
// Environment
// ---------------------------------------------------------------------------

/// The marks of a variable reference: `${VAR}`.
pub open spec fn var_marks() -> Marks {
    Marks { opening: "${"@, closing: "}"@ }
}

/// Expands the `${VAR}` references of `s`: from `overrides` first, then from
/// the process environment; an unknown variable is empty. A value that refers
/// to variables is expanded in turn, so the expansion must come to an end.
pub fn expand_env_with_overrides(
    s: &str,
    overrides: &NameMap<String>,
    process_env: &NameMap<String>,
) -> (r: String)
    requires
        crate::expand::settles(s@, var_marks(), overrides@, process_env@),
    ensures
        r@ == crate::expand::expansion(s@, var_marks(), overrides@, process_env@),
{
    expand_all(s, "${", "}", overrides, process_env)
}

/// Expands the `${VAR}` references of `s` with at most `limit` replacements;
/// nothing if that is not enough.
pub fn expand_env_within(
    s: &str,
    overrides: &NameMap<String>,
    process_env: &NameMap<String>,
    limit: u64,
) -> (r: Option<String>)
    ensures
        r is Some == crate::expand::settles_by(
            s@,
            var_marks(),
            overrides@,
            process_env@,
            limit as nat,
        ),
        r matches Some(t) ==> crate::expand::settles(s@, var_marks(), overrides@, process_env@)
            && t@ == crate::expand::expansion(s@, var_marks(), overrides@, process_env@),
{
    expand_within(s, "${", "}", overrides, process_env, limit)
}

/// The value says "disabled".
pub open spec fn says_off(value: Seq<char>) -> bool {
    crate::text::ascii_lowered(value) == "false"@ || crate::text::ascii_lowered(value) == "0"@
}

/// The toggle variable is set and says "disabled".
pub open spec fn toggled_off(toggle: Option<Seq<char>>, process_env: Texts) -> bool {
    toggle matches Some(name) && process_env.dom().contains(name) && says_off(process_env[name])
}

/// Whether a toggle variable says "disabled".
pub fn is_toggled_off(toggle: Option<&str>, process_env: &NameMap<String>) -> (r: bool)
    ensures
        r == toggled_off(crate::text::opt_slice(toggle), process_env@),
{
    match toggle {
        Some(name) => match process_env.get(name) {
            Some(v) => {
                let low = lower_ascii(v.as_str());
                same_text(low.as_str(), "false") || same_text(low.as_str(), "0")
            },
            None => false,
        },
        None => false,
    }
}

/// The name is set aside: names that begin with `_` are not used.
pub open spec fn set_aside(name: Seq<char>) -> bool {
    name.len() > 0 && name[0] == '_'
}

/// Whether a name is set aside.
pub fn is_set_aside(name: &str) -> (r: bool)
    ensures
        r == set_aside(name@),
{
    name.unicode_len() > 0 && name.get_char(0) == '_'
}

/// The server is disabled: its name is set aside, or its toggle says so.
pub open spec fn disabled(name: Seq<char>, srv: ServerView, process_env: Texts) -> bool {
    set_aside(name) || toggled_off(srv.env_toggle, process_env)
}

/// Whether a server is disabled.
pub fn is_server_disabled(name: &str, srv: &ServerConfig, process_env: &NameMap<String>) -> (r:
    bool)
    ensures
        r == disabled(name@, srv@, process_env@),
{
    let toggle: Option<&str> = match &srv.env_toggle {
        Some(t) => Some(t.as_str()),
        None => None,
    };
    is_set_aside(name) || is_toggled_off(toggle, process_env)
}

/// The names of the servers that are not disabled, in order.
pub open spec fn active_names(
    servers: Seq<(Seq<char>, ServerView)>,
    process_env: Texts,
) -> Seq<Seq<char>>
    decreases servers.len(),
{
    if servers.len() == 0 {
        Seq::empty()
    } else {
        let before = active_names(servers.drop_last(), process_env);
        if disabled(servers.last().0, servers.last().1, process_env) {
            before
        } else {
            before.push(servers.last().0)
        }
    }
}

/// The profile lets the base server `name` run.
pub open spec fn lets_run(p: ProfileView, name: Seq<char>) -> bool {
    (p.included.len() == 0 || p.included.contains(name)) && !p.excluded.contains(name)
}

/// The profile defines a server `name` by itself.
pub open spec fn defines(p: ProfileView, name: Seq<char>) -> bool {
    p.servers.dom().contains(name) && p.servers[name].command is Some
}

/// The servers under a profile: the base servers that it lets run, each with
/// the profile's override merged onto it; and the servers that it defines.
pub open spec fn under_profile(base: Map<Seq<char>, ServerView>, p: ProfileView) -> Map<
    Seq<char>,
    ServerView,
> {
    Map::new(
        |k: Seq<char>|
            if base.dom().contains(k) {
                lets_run(p, k)
            } else {
                defines(p, k)
            },
        |k: Seq<char>|
            if base.dom().contains(k) {
                if p.servers.dom().contains(k) {
                    merged(base[k], p.servers[k])
                } else {
                    base[k]
                }
            } else {
                merged(default_server(), p.servers[k])
            },
    )
}

impl Config {
    /// The config under a profile; custom tools are not touched.
    pub fn with_profile(&self, profile: &ProfileConfig) -> (r: Config)
        ensures
            r@.servers == under_profile(self@.servers, profile@),
            r.custom_tools.pairs() == self.custom_tools.pairs(),
    {
        let ghost p = profile@;
        let ghost base = self.servers.pairs();
        let ghost over = profile.servers.pairs();
        let ghost want = under_profile(self@.servers, p);
        let mut servers: NameMap<ServerConfig> = NameMap::new();
        let n: usize = self.servers.len();
        let mut i: usize = 0;
        while i < n
            invariant
                p == profile@,
                base == self.servers.pairs(),
                crate::names::distinct_names(base),
                want == under_profile(self@.servers, p),
                n == base.len(),
                i <= n,
                forall|k: Seq<char>| #[trigger]
                    servers@.dom().contains(k) ==> self@.servers.dom().contains(k)
                        && want.dom().contains(k) && servers@[k] == want[k],
                forall|j: int|
                    0 <= j < i && want.dom().contains(#[trigger] base[j].0)
                        ==> servers@.dom().contains(base[j].0),
            decreases n - i,
        {
            proof {
                crate::names::lemma_place(base, i as int);
            }
            let name: &String = self.servers.name_at(i);
            let srv: &ServerConfig = self.servers.value_at(i);
            assert(p.included.len() == profile.included@.len());
            if (profile.included.len() == 0 || contains_text(&profile.included, name.as_str()))
                && !contains_text(&profile.excluded, name.as_str()) {
                let merged_server = match profile.servers.get(name.as_str()) {
                    Some(o) => o.apply_to(srv),
                    None => srv.duplicate(),
                };
                servers.insert(name.clone(), merged_server);
            }
            i = i + 1;
        }
        let n: usize = profile.servers.len();
        let mut i: usize = 0;
        while i < n
            invariant
                p == profile@,
                base == self.servers.pairs(),
                over == profile.servers.pairs(),
                crate::names::distinct_names(over),
                want == under_profile(self@.servers, p),
                n == over.len(),
                i <= n,
                forall|k: Seq<char>| #[trigger]
                    servers@.dom().contains(k) ==> want.dom().contains(k) && servers@[k]
                        == want[k],
                forall|j: int|
                    0 <= j < base.len() && want.dom().contains(#[trigger] base[j].0)
                        ==> servers@.dom().contains(base[j].0),
                forall|j: int|
                    0 <= j < i && !self@.servers.dom().contains(#[trigger] over[j].0)
                        && want.dom().contains(over[j].0) ==> servers@.dom().contains(over[j].0),
            decreases n - i,
        {
            proof {
                crate::names::lemma_place(over, i as int);
            }
            let name: &String = profile.servers.name_at(i);
            if !self.servers.contains(name.as_str()) {
                match profile.servers.value_at(i).as_server() {
                    Some(s) => {
                        servers.insert(name.clone(), s);
                    },
                    None => {},
                }
            }
            i = i + 1;
        }
        proof {
            assert forall|k: Seq<char>| #[trigger] want.dom().contains(k) implies
                servers@.dom().contains(k) by {
                if self@.servers.dom().contains(k) {
                    let j = crate::names::place_of(base, k);
                    assert(base[j].0 == k);
                } else {
                    let j = crate::names::place_of(over, k);
                    assert(over[j].0 == k);
                }
            }
            assert(servers@ =~= want);
        }
        Config { servers, custom_tools: self.custom_tools.duplicate() }
    }

    /// The names of the servers that are not disabled.
    pub fn active_server_names(&self, process_env: &NameMap<String>) -> (r: Vec<String>)
        ensures
            crate::text::texts(r@) == active_names(self.servers.pairs(), process_env@),
    {
        let n: usize = self.servers.len();
        let mut out: Vec<String> = Vec::new();
        let mut i: usize = 0;
        assert(crate::text::texts(out@) =~= Seq::empty());
        while i < n
            invariant
                n == self.servers.pairs().len(),
                i <= n,
                crate::text::texts(out@) == active_names(
                    self.servers.pairs().take(i as int),
                    process_env@,
                ),
            decreases n - i,
        {
            let name = self.servers.name_at(i);
            let ghost before = out@;
            assert(self.servers.pairs().take(i + 1).drop_last() =~= self.servers.pairs().take(
                i as int,
            ));
            if !is_server_disabled(name.as_str(), self.servers.value_at(i), process_env) {
                out.push(name.clone());
                assert(crate::text::texts(out@) =~= crate::text::texts(before).push(name@));
            }
            i = i + 1;
        }
        assert(self.servers.pairs().take(n as int) =~= self.servers.pairs());
        out
    }
}

/// The environment of a backend process: the config's variables expanded, with
/// the overrides on top.
pub open spec fn resolved_env(config_env: Texts, overrides: Texts, process_env: Texts) -> Texts {
    Map::new(
        |k: Seq<char>| config_env.dom().contains(k) || overrides.dom().contains(k),
        |k: Seq<char>|
            if overrides.dom().contains(k) {
                overrides[k]
            } else {
                crate::expand::expansion(config_env[k], var_marks(), overrides, process_env)
            },
    )
}

/// Every value of `config_env` is expanded by at most `limit` replacements.
pub open spec fn env_settles_by(
    config_env: Texts,
    overrides: Texts,
    process_env: Texts,
    limit: nat,
) -> bool {
    forall|k: Seq<char>| #[trigger]
        config_env.dom().contains(k) ==> crate::expand::settles_by(
            config_env[k],
            var_marks(),
            overrides,
            process_env,
            limit,
        )
}

/// The environment of a backend process; nothing if a value needs more than
/// `limit` replacements.
pub fn resolve_env(
    config_env: &NameMap<String>,
    overrides: &NameMap<String>,
    process_env: &NameMap<String>,
    limit: u64,
) -> (r: Option<NameMap<String>>)
    ensures
        r is Some == env_settles_by(config_env@, overrides@, process_env@, limit as nat),
        r matches Some(m) ==> m@ == resolved_env(config_env@, overrides@, process_env@),
{
    let n: usize = config_env.len();
    let mut out: NameMap<String> = NameMap::new();
    let mut i: usize = 0;
    while i < n
        invariant
            n == config_env.pairs().len(),
            crate::names::distinct_names(config_env.pairs()),
            i <= n,
            forall|k: Seq<char>| #[trigger]
                out@.dom().contains(k) ==> config_env@.dom().contains(k) && out@[k]
                    == crate::expand::expansion(
                    config_env@[k],
                    var_marks(),
                    overrides@,
                    process_env@,
                ),
            forall|j: int|
                0 <= j < i ==> out@.dom().contains(#[trigger] config_env.pairs()[j].0)
                    && crate::expand::settles_by(
                    config_env.pairs()[j].1,
                    var_marks(),
                    overrides@,
                    process_env@,
                    limit as nat,
                ),
        decreases n - i,
    {
        proof {
            crate::names::lemma_place(config_env.pairs(), i as int);
        }
        match expand_env_within(config_env.value_at(i).as_str(), overrides, process_env, limit) {
            Some(v) => {
                out.insert(config_env.name_at(i).clone(), v);
            },
            None => {
                assert(!crate::expand::settles_by(
                    config_env@[config_env.pairs()[i as int].0],
                    var_marks(),
                    overrides@,
                    process_env@,
                    limit as nat,
                ));
                return None;
            },
        }
        i = i + 1;
    }
    proof {
        assert forall|k: Seq<char>| #[trigger] config_env@.dom().contains(k) implies out@.dom().contains(
            k,
        ) && crate::expand::settles_by(
            config_env@[k],
            var_marks(),
            overrides@,
            process_env@,
            limit as nat,
        ) by {
            let p = crate::names::place_of(config_env.pairs(), k);
            crate::names::lemma_place(config_env.pairs(), p);
            assert(out@.dom().contains(config_env.pairs()[p].0));
        }
    }
    merge_names(&mut out, overrides);
    assert(out@ =~= resolved_env(config_env@, overrides@, process_env@));
    Some(out)
}

// ---------------------------------------------------------------------------
// Laws
// ---------------------------------------------------------------------------

/// Overriding nothing changes nothing.
pub proof fn merging_nothing_changes_nothing(base: ServerView)
    ensures
        merged(base, no_override()) == base,
{
    assert(merged(base, no_override()) =~= base);
}

/// Merging the same override twice is merging it once.
pub proof fn merging_is_idempotent(base: ServerView, over: OverrideView)
    ensures
        merged(merged(base, over), over) == merged(base, over),
{
    match over.env {
        Some(e) => {
            assert(base.env.union_prefer_right(e).union_prefer_right(e)
                =~= base.env.union_prefer_right(e));
        },
        None => {},
    }
    assert(merged(merged(base, over), over) =~= merged(base, over));
}

/// The variables of an override win over those of the base server, and the
/// others are kept.
pub proof fn override_env_wins(base: ServerView, over: OverrideView, env: Texts, key: Seq<char>)
    requires
        over.env == Some(env),
    ensures
        env.dom().contains(key) ==> merged(base, over).env.dom().contains(key) && merged(
            base,
            over,
        ).env[key] == env[key],
        !env.dom().contains(key) ==> merged(base, over).env.dom().contains(key)
            == base.env.dom().contains(key),
        !env.dom().contains(key) && base.env.dom().contains(key) ==> merged(base, over).env[key]
            == base.env[key],
{
}

/// A client's override reaches the backend as it is, whatever the config says.
pub proof fn client_env_wins(config_env: Texts, overrides: Texts, process_env: Texts, key: Seq<char>)
    requires
        overrides.dom().contains(key),
    ensures
        resolved_env(config_env, overrides, process_env).dom().contains(key),
        resolved_env(config_env, overrides, process_env)[key] == overrides[key],
{
}

/// A profile that says nothing changes no server.
pub proof fn empty_profile_changes_nothing(base: Map<Seq<char>, ServerView>)
    ensures
        under_profile(base, empty_profile()) == base,
{
    assert(under_profile(base, empty_profile()) =~= base);
}

/// Under a profile, a base server that it excludes does not run, nor one that
/// it does not include if it includes any.
pub proof fn only_picked_servers_run(
    base: Map<Seq<char>, ServerView>,
    p: ProfileView,
    name: Seq<char>,
)
    requires
        base.dom().contains(name),
        p.excluded.contains(name) || (p.included.len() > 0 && !p.included.contains(name)),
    ensures
        !under_profile(base, p).dom().contains(name),
{
}

/// Where the reference `${key}` behind a text without references stands, and
/// what its replacement leaves.
pub proof fn lemma_reference(head: Seq<char>, key: Seq<char>, tail: Seq<char>, value: Seq<char>)
    requires
        !crate::text::contains_pat(head, "${"@),
        !key.contains('}'),
    ensures
        ({
            let s = head + "${"@ + key + "}"@ + tail;
            let at = (head.len() as int, (head.len() + 2 + key.len()) as int);
            &&& crate::expand::placeholder(s, "${"@, "}"@, 0) == Some(at)
            &&& crate::expand::key_at(s, "${"@, at) == key
            &&& crate::expand::replaced(s, "}"@, at, value) == head + value + tail
        }),
{
    reveal_strlit("${");
    reveal_strlit("}");
    let s = head + "${"@ + key + "}"@ + tail;
    let rest = key + "}"@ + tail;
    assert(s =~= head + "${"@ + rest);
    let h = head.len() as int;
    assert forall|j: int| 0 <= j < h implies !crate::text::occurs_at(s, "${"@, j) by {
        if crate::text::occurs_at(s, "${"@, j) {
            assert(s.subrange(j, j + 2)[0] == s[j] && s.subrange(j, j + 2)[1] == s[j + 1]);
            if j + 2 <= h {
                assert(head.subrange(j, j + 2) =~= s.subrange(j, j + 2));
                assert(crate::text::occurs_at(head, "${"@, j));
            }
        }
    }
    crate::text::lemma_found_behind(head, "${"@, rest);
    let b = h + 2 + key.len();
    crate::text::lemma_find_from(s, "}"@, h + 2);
    assert(s.subrange(b, b + 1) =~= "}"@);
    assert(crate::text::occurs_at(s, "}"@, b));
    let found = crate::text::find_from(s, "}"@, h + 2)->0;
    assert(found == b) by {
        if found < b {
            assert(s.subrange(found, found + 1)[0] == '}');
            assert(s[found] == key[found - h - 2]);
            assert(key.contains(key[found - h - 2]));
        }
    }
    assert(s.subrange(h + 2, b) =~= key);
    assert(s.subrange(0, h) =~= head);
    assert(s.subrange(b + 1, s.len() as int) =~= tail);
}

/// A reference `${key}` takes the value of the override, else of the process
/// environment, else nothing; what comes of that is expanded in turn.
pub proof fn reference_takes_its_value(
    head: Seq<char>,
    key: Seq<char>,
    tail: Seq<char>,
    overrides: Texts,
    process_env: Texts,
    value: Seq<char>,
)
    requires
        !crate::text::contains_pat(head, "${"@),
        !key.contains('}'),
        overrides.dom().contains(key) ==> value == overrides[key],
        !overrides.dom().contains(key) && process_env.dom().contains(key) ==> value
            == process_env[key],
        !overrides.dom().contains(key) && !process_env.dom().contains(key) ==> value.len() == 0,
        crate::expand::settles(head + value + tail, var_marks(), overrides, process_env),
    ensures
        crate::expand::settles(
            head + "${"@ + key + "}"@ + tail,
            var_marks(),
            overrides,
            process_env,
        ),
        crate::expand::expansion(
            head + "${"@ + key + "}"@ + tail,
            var_marks(),
            overrides,
            process_env,
        ) == crate::expand::expansion(head + value + tail, var_marks(), overrides, process_env),
{
    let marks = var_marks();
    let s = head + "${"@ + key + "}"@ + tail;
    let t = head + value + tail;
    lemma_reference(head, key, tail, value);
    if !overrides.dom().contains(key) && !process_env.dom().contains(key) {
        assert(value =~= Seq::<char>::empty());
    }
    assert(crate::expand::value_for(key, overrides, process_env) == value);
    let n = choose|n: nat| crate::expand::settles_by(t, marks, overrides, process_env, n);
    assert(crate::expand::expanded_by(s, marks, overrides, process_env, n + 1)
        == crate::expand::expanded_by(t, marks, overrides, process_env, n));
    assert(crate::expand::settles_by(s, marks, overrides, process_env, n + 1));
    crate::expand::lemma_expansion_unique(s, marks, overrides, process_env, n + 1);
    crate::expand::lemma_expansion_unique(t, marks, overrides, process_env, n);
}

/// A text without `${` is left as it is.
pub proof fn text_without_references_is_left(s: Seq<char>, overrides: Texts, process_env: Texts)
    requires
        !crate::text::contains_pat(s, "${"@),
    ensures
        crate::expand::settles_by(s, var_marks(), overrides, process_env, 0),
        crate::expand::settles(s, var_marks(), overrides, process_env),
        crate::expand::expansion(s, var_marks(), overrides, process_env) == s,
{
    crate::text::lemma_not_found(s, "${"@, 0);
    crate::expand::expansion_of_plain(s, var_marks(), overrides, process_env);
}

/// A reference that is not closed is left as it is.
pub proof fn unclosed_reference_is_left(
    head: Seq<char>,
    rest: Seq<char>,
    overrides: Texts,
    process_env: Texts,
)
    requires
        !crate::text::contains_pat(head, "${"@),
        !rest.contains('}'),
    ensures
        crate::expand::settles_by(
            head + "${"@ + rest,
            var_marks(),
            overrides,
            process_env,
            0,
        ),
        crate::expand::expansion(head + "${"@ + rest, var_marks(), overrides, process_env)
            == head + "${"@ + rest,
{
    reveal_strlit("${");
    reveal_strlit("}");
    let s = head + "${"@ + rest;
    let h = head.len() as int;
    assert forall|j: int| 0 <= j < h implies !crate::text::occurs_at(s, "${"@, j) by {
        if crate::text::occurs_at(s, "${"@, j) {
            assert(s.subrange(j, j + 2)[0] == s[j] && s.subrange(j, j + 2)[1] == s[j + 1]);
            if j + 2 <= h {
                assert(head.subrange(j, j + 2) =~= s.subrange(j, j + 2));
                assert(crate::text::occurs_at(head, "${"@, j));
            }
        }
    }
    crate::text::lemma_found_behind(head, "${"@, rest);
    crate::text::lemma_find_from(s, "}"@, h + 2);
    if crate::text::find_from(s, "}"@, h + 2) is Some {
        let b = crate::text::find_from(s, "}"@, h + 2)->0;
        assert(s.subrange(b, b + 1)[0] == '}');
        assert(s[b] == rest[b - h - 2]);
        assert(rest.contains(rest[b - h - 2]));
    }
    crate::expand::expansion_of_plain(s, var_marks(), overrides, process_env);
}

/// One reference in a text, whose value brings no other with it, is replaced by
/// its value.
pub proof fn one_reference_is_replaced(
    head: Seq<char>,
    key: Seq<char>,
    tail: Seq<char>,
    overrides: Texts,
    process_env: Texts,
    value: Seq<char>,
)
    requires
        !crate::text::contains_pat(head, "${"@),
        !key.contains('}'),
        overrides.dom().contains(key) ==> value == overrides[key],
        !overrides.dom().contains(key) && process_env.dom().contains(key) ==> value
            == process_env[key],
        !overrides.dom().contains(key) && !process_env.dom().contains(key) ==> value.len() == 0,
        !crate::text::contains_pat(head + value + tail, "${"@),
    ensures
        crate::expand::expansion(
            head + "${"@ + key + "}"@ + tail,
            var_marks(),
            overrides,
            process_env,
        ) == head + value + tail,
        crate::expand::settles_by(
            head + "${"@ + key + "}"@ + tail,
            var_marks(),
            overrides,
            process_env,
            1,
        ),
{
    let marks = var_marks();
    let s = head + "${"@ + key + "}"@ + tail;
    let t = head + value + tail;
    text_without_references_is_left(t, overrides, process_env);
    reference_takes_its_value(head, key, tail, overrides, process_env, value);
    lemma_reference(head, key, tail, value);
    if !overrides.dom().contains(key) && !process_env.dom().contains(key) {
        assert(value =~= Seq::<char>::empty());
    }
    reveal_with_fuel(crate::expand::expanded_by, 2);
    assert(crate::expand::expanded_by(s, marks, overrides, process_env, 1) == t);
}

/// A variable of the config that refers to `${name}` reaches the process with
/// the value of that name: the client's override, else that of the process
/// environment, else nothing.
pub proof fn config_variable_reaches_the_process(
    config_env: Texts,
    overrides: Texts,
    process_env: Texts,
    variable: Seq<char>,
    head: Seq<char>,
    name: Seq<char>,
    tail: Seq<char>,
    value: Seq<char>,
)
    requires
        config_env.dom().contains(variable),
        !overrides.dom().contains(variable),
        config_env[variable] == head + "${"@ + name + "}"@ + tail,
        !crate::text::contains_pat(head, "${"@),
        !name.contains('}'),
        overrides.dom().contains(name) ==> value == overrides[name],
        !overrides.dom().contains(name) && process_env.dom().contains(name) ==> value
            == process_env[name],
        !overrides.dom().contains(name) && !process_env.dom().contains(name) ==> value.len() == 0,
        !crate::text::contains_pat(head + value + tail, "${"@),
    ensures
        resolved_env(config_env, overrides, process_env).dom().contains(variable),
        resolved_env(config_env, overrides, process_env)[variable] == head + value + tail,
{
    one_reference_is_replaced(head, name, tail, overrides, process_env, value);
}

/// A variable of the config that refers to nothing and is not overridden
/// reaches the process as it is.
pub proof fn plain_config_variable_reaches_the_process(
    config_env: Texts,
    overrides: Texts,
    process_env: Texts,
    variable: Seq<char>,
)
    requires
        config_env.dom().contains(variable),
        !overrides.dom().contains(variable),
        !crate::text::contains_pat(config_env[variable], "${"@),
    ensures
        resolved_env(config_env, overrides, process_env).dom().contains(variable),
        resolved_env(config_env, overrides, process_env)[variable] == config_env[variable],
{
    text_without_references_is_left(config_env[variable], overrides, process_env);
}

/// The process gets the variables of the config and of the client, and no
/// others by them.
pub proof fn process_gets_no_other_variables(
    config_env: Texts,
    overrides: Texts,
    process_env: Texts,
    variable: Seq<char>,
)
    ensures
        resolved_env(config_env, overrides, process_env).dom().contains(variable) == (
        config_env.dom().contains(variable) || overrides.dom().contains(variable)),
{
}

/// A toggle says "off" if its value is `0` or the word false, in letters of
/// either case.
pub proof fn off_is_zero_or_false(value: Seq<char>)
    ensures
        says_off(value) == (value == seq!['0'] || (value.len() == 5 && (value[0] == 'f' || value[0]
            == 'F') && (value[1] == 'a' || value[1] == 'A') && (value[2] == 'l' || value[2] == 'L')
            && (value[3] == 's' || value[3] == 'S') && (value[4] == 'e' || value[4] == 'E'))),
{
    reveal_strlit("false");
    reveal_strlit("0");
    let low = crate::text::ascii_lowered(value);
    assert("false"@ =~= seq!['f', 'a', 'l', 's', 'e']);
    assert("0"@ =~= seq!['0']);
    assert forall|c: char| #[trigger] crate::text::ascii_lower(c) == 'f' implies c == 'f' || c
        == 'F' by {}
    if value == seq!['0'] {
        assert(low =~= "0"@);
    }
    if low == "0"@ {
        assert(low[0] == '0');
        assert(value =~= seq!['0']);
    }
    if low == "false"@ {
        assert(low[0] == 'f' && low[1] == 'a' && low[2] == 'l' && low[3] == 's' && low[4] == 'e');
    }
    if value.len() == 5 && (value[0] == 'f' || value[0] == 'F') && (value[1] == 'a' || value[1]
        == 'A') && (value[2] == 'l' || value[2] == 'L') && (value[3] == 's' || value[3] == 'S') && (
    value[4] == 'e' || value[4] == 'E') {
        assert(low =~= "false"@);
    }
}

/// A server is disabled if its name begins with `_`, or if its toggle names a
/// variable of the process environment that says "off"; and only then.
pub proof fn disabled_by_name_or_toggle(name: Seq<char>, srv: ServerView, process_env: Texts)
    ensures
        name.len() > 0 && name[0] == '_' ==> disabled(name, srv, process_env),
        !(name.len() > 0 && name[0] == '_') && srv.env_toggle is None ==> !disabled(
            name,
            srv,
            process_env,
        ),
        !(name.len() > 0 && name[0] == '_') && srv.env_toggle is Some ==> disabled(
            name,
            srv,
            process_env,
        ) == (process_env.dom().contains(srv.env_toggle->0) && says_off(
            process_env[srv.env_toggle->0],
        )),
{
}

/// The active servers are exactly those that are not disabled.
pub proof fn active_servers_are_not_disabled(
    servers: Seq<(Seq<char>, ServerView)>,
    process_env: Texts,
    name: Seq<char>,
)
    ensures
        active_names(servers, process_env).contains(name) == exists|i: int|
            0 <= i < servers.len() && (#[trigger] servers[i]).0 == name && !disabled(
                name,
                servers[i].1,
                process_env,
            ),
    decreases servers.len(),
{
    if servers.len() > 0 {
        let t = servers.drop_last();
        active_servers_are_not_disabled(t, process_env, name);
        let last = servers.last();
        crate::picked::lemma_push_contains(active_names(t, process_env), last.0, name);
        assert(servers[servers.len() - 1] == last);
        if exists|i: int|
            0 <= i < t.len() && (#[trigger] t[i]).0 == name && !disabled(
                name,
                t[i].1,
                process_env,
            ) {
            let i = choose|i: int|
                0 <= i < t.len() && (#[trigger] t[i]).0 == name && !disabled(
                    name,
                    t[i].1,
                    process_env,
                );
            assert(servers[i] == t[i]);
        }
        if exists|i: int|
            0 <= i < servers.len() && (#[trigger] servers[i]).0 == name && !disabled(
                name,
                servers[i].1,
                process_env,
            ) {
            let i = choose|i: int|
                0 <= i < servers.len() && (#[trigger] servers[i]).0 == name && !disabled(
                    name,
                    servers[i].1,
                    process_env,
                );
            if i < t.len() {
                assert(t[i] == servers[i]);
            }
        }
    }
}

/// The active servers of two configs one after the other are those of the
/// first, then those of the second.
pub proof fn active_servers_keep_their_order(
    a: Seq<(Seq<char>, ServerView)>,
    b: Seq<(Seq<char>, ServerView)>,
    process_env: Texts,
)
    ensures
        active_names(a + b, process_env) == active_names(a, process_env) + active_names(
            b,
            process_env,
        ),
    decreases b.len(),
{
    if b.len() == 0 {
        assert(a + b =~= a);
        assert(active_names(a, process_env) + active_names(b, process_env) =~= active_names(
            a,
            process_env,
        ));
    } else {
        assert((a + b).drop_last() =~= a + b.drop_last());
        active_servers_keep_their_order(a, b.drop_last(), process_env);
        assert(active_names(a + b, process_env) =~= active_names(a, process_env) + active_names(
            b,
            process_env,
        ));
    }
}

/// An override replaces the fields that it states and leaves the others.
pub proof fn override_replaces_what_it_states(base: ServerView, over: OverrideView)
    ensures
        merged(base, over).command == (if over.command is Some {
            over.command->0
        } else {
            base.command
        }),
        merged(base, over).args == (if over.args is Some {
            over.args->0
        } else {
            base.args
        }),
        merged(base, over).install == (if over.install is Some {
            over.install
        } else {
            base.install
        }),
        merged(base, over).runtime == (if over.runtime is Some {
            over.runtime->0
        } else {
            base.runtime
        }),
        merged(base, over).env_toggle == (if over.env_toggle is Some {
            over.env_toggle
        } else {
            base.env_toggle
        }),
        over.env is None ==> merged(base, over).env == base.env,
        merged(base, over).shared == base.shared,
        merged(base, over).timeout_secs == base.timeout_secs,
        merged(base, over).idle_timeout_secs == base.idle_timeout_secs,
        merged(base, over).auto_restart == base.auto_restart,
        merged(base, over).max_restarts == base.max_restarts,
        merged(base, over).include_tools == base.include_tools,
        merged(base, over).exclude_tools == base.exclude_tools,
        merged(base, over).tool_aliases == base.tool_aliases,
{
}

/// A base server that a profile lets run keeps its config, with the profile's
/// override on top if there is one.
pub proof fn profile_keeps_the_servers_it_lets_run(
    base: Map<Seq<char>, ServerView>,
    p: ProfileView,
    name: Seq<char>,
)
    requires
        base.dom().contains(name),
        p.included.len() == 0 || p.included.contains(name),
        !p.excluded.contains(name),
    ensures
        under_profile(base, p).dom().contains(name),
        !p.servers.dom().contains(name) ==> under_profile(base, p)[name] == base[name],
        p.servers.dom().contains(name) ==> under_profile(base, p)[name] == merged(
            base[name],
            p.servers[name],
        ),
{
}

/// A profile adds exactly the servers that it defines by a command and that the
/// base does not have.
pub proof fn profile_adds_the_servers_it_defines(
    base: Map<Seq<char>, ServerView>,
    p: ProfileView,
    name: Seq<char>,
)
    requires
        !base.dom().contains(name),
    ensures
        under_profile(base, p).dom().contains(name) == (p.servers.dom().contains(name)
            && p.servers[name].command is Some),
        under_profile(base, p).dom().contains(name) ==> under_profile(base, p)[name].command
            == p.servers[name].command->0,
{
}

/// A profile that picks servers asks for exactly the included ones, or all if
/// none is included, that it does not exclude.
pub proof fn profile_picks_what_it_says(p: ProfileView, active: Seq<Seq<char>>, name: Seq<char>)
    ensures
        p.included.len() > 0 ==> profile_servers(p, active).contains(name) == (
        p.included.contains(name) && !p.excluded.contains(name)),
        p.included.len() == 0 && p.excluded.len() > 0 ==> profile_servers(p, active).contains(name)
            == (active.contains(name) && !p.excluded.contains(name)),
        p.included.len() == 0 && p.excluded.len() == 0 ==> profile_servers(p, active).len() == 0,
        leaves_nothing(p, active) == ((p.included.len() > 0 || p.excluded.len() > 0)
            && profile_servers(p, active).len() == 0),
{
    crate::picked::lemma_picked(p.included, not_excluded(p.excluded));
    crate::picked::lemma_picked(active, not_excluded(p.excluded));
}

/// Two servers with the same view agree in every field.
pub proof fn server_view_tells_every_field(a: ServerConfig, b: ServerConfig)
    requires
        a@ == b@,
    ensures
        a.command@ == b.command@,
        a.args@.len() == b.args@.len(),
        forall|i: int| 0 <= i < a.args@.len() ==> (#[trigger] a.args@[i])@ == b.args@[i]@,
        a.env@ == b.env@,
        crate::text::opt_text(a.env_toggle) == crate::text::opt_text(b.env_toggle),
        install_view(a.install) == install_view(b.install),
        a.runtime == b.runtime,
        a.shared == b.shared,
        a.timeout_secs == b.timeout_secs,
        a.idle_timeout_secs == b.idle_timeout_secs,
        a.auto_restart == b.auto_restart,
        a.max_restarts == b.max_restarts,
        crate::text::texts(a.include_tools@) == crate::text::texts(b.include_tools@),
        crate::text::texts(a.exclude_tools@) == crate::text::texts(b.exclude_tools@),
        a.tool_aliases@ == b.tool_aliases@,
{
    assert(crate::text::texts(a.args@) == crate::text::texts(b.args@));
    assert(crate::text::texts(a.args@).len() == crate::text::texts(b.args@).len());
    assert forall|i: int| 0 <= i < a.args@.len() implies (#[trigger] a.args@[i])@ == b.args@[i]@ by {
        assert(crate::text::texts(a.args@)[i] == crate::text::texts(b.args@)[i]);
    }
}

/// Two configs with the same view have the same servers and custom tools.
pub proof fn config_view_tells_every_field(a: Config, b: Config)
    requires
        a@ == b@,
    ensures
        a.servers@ == b.servers@,
        a.custom_tools@ == b.custom_tools@,
{
}

/// Two profiles with the same view agree in every field.
pub proof fn profile_view_tells_every_field(a: ProfileConfig, b: ProfileConfig)
    requires
        a@ == b@,
    ensures
        crate::text::opt_text(a.description) == crate::text::opt_text(b.description),
        crate::text::texts(a.included@) == crate::text::texts(b.included@),
        crate::text::texts(a.excluded@) == crate::text::texts(b.excluded@),
        a.servers@ == b.servers@,
{
}

/// A server that says nothing runs in Docker, is of a session, restarts, and has
/// neither arguments nor variables nor filters.
pub proof fn a_server_by_default()
    ensures
        default_server().shared == Sharing::Session,
        default_server().runtime == Runtime::Docker,
        default_server().auto_restart,
        default_server().install is None,
        default_server().env_toggle is None,
        default_server().timeout_secs is None,
        default_server().idle_timeout_secs is None,
        default_server().max_restarts is None,
        default_server().args.len() == 0,
        default_server().env == Map::<Seq<char>, Seq<char>>::empty(),
        default_server().include_tools.len() == 0,
        default_server().exclude_tools.len() == 0,
{
}

/// A path in a directory is the directory, one `/`, and the name.
pub proof fn path_is_joined_by_one_slash(dir: Seq<char>, name: Seq<char>)
    requires
        !(dir.len() > 0 && dir[dir.len() - 1] == '/'),
        dir.len() > 0,
    ensures
        path_in(dir, name) == dir + "/"@ + name,
        path_in(dir + "/"@, name) == dir + "/"@ + name,
        path_in(Seq::empty(), name) == name,
{
    reveal_strlit("/");
    assert((dir + "/"@).last() == '/');
}

/// An environment without references is resolved at once; one in which each
/// variable has at most one reference, to a value without any, by one
/// replacement each.
pub proof fn plain_environments_are_resolved(
    config_env: Texts,
    overrides: Texts,
    process_env: Texts,
    limit: nat,
)
    requires
        forall|k: Seq<char>| #[trigger]
            config_env.dom().contains(k) ==> !crate::text::contains_pat(config_env[k], "${"@),
    ensures
        env_settles_by(config_env, overrides, process_env, limit),
{
    assert forall|k: Seq<char>| #[trigger]
        config_env.dom().contains(k) implies crate::expand::settles_by(
        config_env[k],
        var_marks(),
        overrides,
        process_env,
        limit,
    ) by {
        text_without_references_is_left(config_env[k], overrides, process_env);
        crate::expand::lemma_settled_stays(
            config_env[k],
            var_marks(),
            overrides,
            process_env,
            0,
            limit,
        );
    }
}

/// A variable whose one reference is bound to a value without references does
/// not keep the environment from being resolved, once a replacement is allowed.
pub proof fn bound_references_are_resolved(
    config_env: Texts,
    overrides: Texts,
    process_env: Texts,
    limit: nat,
    variable: Seq<char>,
    head: Seq<char>,
    name: Seq<char>,
    tail: Seq<char>,
    value: Seq<char>,
)
    requires
        limit >= 1,
        forall|k: Seq<char>| #[trigger]
            config_env.dom().contains(k) && k != variable ==> !crate::text::contains_pat(
                config_env[k],
                "${"@,
            ),
        config_env.dom().contains(variable) ==> config_env[variable] == head + "${"@ + name + "}"@
            + tail,
        !crate::text::contains_pat(head, "${"@),
        !name.contains('}'),
        overrides.dom().contains(name) ==> value == overrides[name],
        !overrides.dom().contains(name) && process_env.dom().contains(name) ==> value
            == process_env[name],
        !overrides.dom().contains(name) && !process_env.dom().contains(name) ==> value.len() == 0,
        !crate::text::contains_pat(head + value + tail, "${"@),
    ensures
        env_settles_by(config_env, overrides, process_env, limit),
{
    assert forall|k: Seq<char>| #[trigger]
        config_env.dom().contains(k) implies crate::expand::settles_by(
        config_env[k],
        var_marks(),
        overrides,
        process_env,
        limit,
    ) by {
        if k == variable {
            one_reference_is_replaced(head, name, tail, overrides, process_env, value);
            crate::expand::lemma_settled_stays(
                config_env[k],
                var_marks(),
                overrides,
                process_env,
                1,
                limit,
            );
        } else {
            text_without_references_is_left(config_env[k], overrides, process_env);
            crate::expand::lemma_settled_stays(
                config_env[k],
                var_marks(),
                overrides,
                process_env,
                0,
                limit,
            );
        }
    }
}

/// A variable that refers to itself by way of the process environment is never
/// resolved: its expansion does not end.
pub proof fn a_variable_that_holds_itself_is_not_resolved(
    name: Seq<char>,
    overrides: Texts,
    process_env: Texts,
    n: nat,
)
    requires
        !name.contains('}'),
        !overrides.dom().contains(name),
        process_env.dom().contains(name),
        process_env[name] == "${"@ + name + "}"@,
    ensures
        !crate::expand::settles_by("${"@ + name + "}"@, var_marks(), overrides, process_env, n),
    decreases n,
{
    let none = Seq::<char>::empty();
    let s = "${"@ + name + "}"@;
    reveal_strlit("${");
    assert(!crate::text::contains_pat(none, "${"@));
    lemma_reference(none, name, none, s);
    assert(none + "${"@ + name + "}"@ + none =~= s);
    assert(none + s + none =~= s);
    if n > 0 {
        a_variable_that_holds_itself_is_not_resolved(name, overrides, process_env, (n - 1) as nat);
    }
}

} // verus!
