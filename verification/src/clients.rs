//! The MCP client applications that the proxy can be registered with, and what
//! registering changes in their configuration.

use vstd::prelude::*;

use crate::config::join_path;
use crate::json::{Json, put, take_out, text, text_array};
use crate::names::Duplicate;
use crate::text::{cat, lower_ascii, same_text};

verus! {

/// A client application on this system.
pub struct ClientDef {
    pub name: String,
    /// Where its configuration stands.
    pub config_path: String,
    /// Whether the directory of the configuration shows that the client is
    /// there, though it may have no configuration yet.
    pub directory_suffices: bool,
    /// The member of its configuration that holds the MCP servers.
    pub mcp_key: String,
}

/// What a client stands for.
pub struct ClientView {
    pub name: Seq<char>,
    pub config_path: Seq<char>,
    pub directory_suffices: bool,
    pub mcp_key: Seq<char>,
}

impl View for ClientDef {
    type V = ClientView;

    open spec fn view(&self) -> ClientView {
        ClientView {
            name: self.name@,
            config_path: self.config_path@,
            directory_suffices: self.directory_suffices,
            mcp_key: self.mcp_key@,
        }
    }
}

/// What a list of clients stands for.
pub open spec fn clients_view(s: Seq<ClientDef>) -> Seq<ClientView> {
    Seq::new(s.len(), |i: int| s[i]@)
}

/// Where desktop applications keep their configuration below the home directory
/// on the system `os`.
pub open spec fn application_dir(os: Seq<char>) -> Seq<char> {
    if os == "macos"@ {
        "Library/Application Support/"@
    } else if os == "windows"@ {
        "AppData/Roaming/"@
    } else {
        ".config/"@
    }
}

/// The desktop client of `vendor`: its directory has the vendor's name, and the
/// file in it begins with that name in lower case.
pub open spec fn desktop_client(vendor: Seq<char>, home: Seq<char>, os: Seq<char>) -> ClientView {
    ClientView {
        name: vendor + " Desktop"@,
        config_path: crate::config::path_in(
            home,
            application_dir(os) + vendor + "/"@ + crate::text::ascii_lowered(vendor)
                + "_desktop_config.json"@,
        ),
        directory_suffices: true,
        mcp_key: "mcpServers"@,
    }
}

/// The command-line client of `vendor`.
pub open spec fn cli_client(vendor: Seq<char>, home: Seq<char>) -> ClientView {
    ClientView {
        name: vendor + " CLI"@,
        config_path: crate::config::path_in(
            home,
            "."@ + crate::text::ascii_lowered(vendor) + ".json"@,
        ),
        directory_suffices: false,
        mcp_key: "mcpServers"@,
    }
}

/// The client Augment.
pub open spec fn augment(home: Seq<char>) -> ClientView {
    ClientView {
        name: "Augment"@,
        config_path: crate::config::path_in(home, ".augment/settings.json"@),
        directory_suffices: false,
        mcp_key: "mcpServers"@,
    }
}

/// The known clients: the two of the vendor, where there is one, and Augment.
pub open spec fn known(vendor: Option<Seq<char>>, home: Seq<char>, os: Seq<char>) -> Seq<
    ClientView,
> {
    match vendor {
        Some(v) => seq![desktop_client(v, home, os), cli_client(v, home), augment(home)],
        None => seq![augment(home)],
    }
}

fn desktop_of(vendor: &str, home: &str, os: &str) -> (r: ClientDef)
    ensures
        r@ == desktop_client(vendor@, home@, os@),
{
    let dir: &str = if same_text(os, "macos") {
        "Library/Application Support/"
    } else if same_text(os, "windows") {
        "AppData/Roaming/"
    } else {
        ".config/"
    };
    let lower = lower_ascii(vendor);
    let mut path = cat(dir, vendor);
    path.append("/");
    path.append(lower.as_str());
    path.append("_desktop_config.json");
    ClientDef {
        name: cat(vendor, " Desktop"),
        config_path: join_path(home, path.as_str()),
        directory_suffices: true,
        mcp_key: "mcpServers".to_owned(),
    }
}

fn cli_of(vendor: &str, home: &str) -> (r: ClientDef)
    ensures
        r@ == cli_client(vendor@, home@),
{
    let lower = lower_ascii(vendor);
    let mut path = cat(".", lower.as_str());
    path.append(".json");
    ClientDef {
        name: cat(vendor, " CLI"),
        config_path: join_path(home, path.as_str()),
        directory_suffices: false,
        mcp_key: "mcpServers".to_owned(),
    }
}

/// The known clients, for the home directory `home` on the system `os`: the
/// desktop and the command-line client of `vendor`, and Augment.
pub fn known_clients(vendor: Option<&str>, home: &str, os: &str) -> (r: Vec<ClientDef>)
    ensures
        clients_view(r@) == known(crate::text::opt_slice(vendor), home@, os@),
{
    let mut r: Vec<ClientDef> = Vec::new();
    match vendor {
        Some(v) => {
            r.push(desktop_of(v, home, os));
            r.push(cli_of(v, home));
        },
        None => {},
    }
    r.push(
        ClientDef {
            name: "Augment".to_owned(),
            config_path: join_path(home, ".augment/settings.json"),
            directory_suffices: false,
            mcp_key: "mcpServers".to_owned(),
        },
    );
    assert(clients_view(r@) =~= known(crate::text::opt_slice(vendor), home@, os@));
    r
}

/// Whether a client is there: its configuration has to exist, or only the
/// directory of the configuration where that suffices.
pub fn is_available(client: &ClientDef, config_exists: bool, dir_exists: bool) -> (r: bool)
    ensures
        r == (if client.directory_suffices {
            dir_exists
        } else {
            config_exists
        }),
{
    if client.directory_suffices {
        dir_exists
    } else {
        config_exists
    }
}

/// The configuration in the text of a client's file; `None` if the file could
/// not be read or holds no JSON.
pub open spec fn config_of(raw: Option<Seq<char>>) -> Option<crate::json::JsonView> {
    match raw {
        Some(t) => crate::json::parsed_json(vstd::utf8::encode_utf8(t)),
        None => None,
    }
}

/// Reads the configuration from the text of a client's file.
pub fn read_config(raw: Option<&str>) -> (r: Option<Json>)
    ensures
        crate::config::opt_json(r) == config_of(crate::text::opt_slice(raw)),
{
    match raw {
        Some(t) => Json::parse(t),
        None => None,
    }
}

/// The servers under `key` in a configuration.
pub open spec fn servers_in(cfg: crate::json::JsonView, key: Seq<char>) -> Map<
    Seq<char>,
    crate::json::JsonView,
> {
    match crate::json::member_of(cfg, key) {
        Some(crate::json::JsonView::Object(m)) => m,
        _ => crate::json::no_members(),
    }
}

/// Whether a configuration names the proxy among its servers.
pub open spec fn lists_proxy(cfg: crate::json::JsonView, key: Seq<char>) -> bool {
    servers_in(cfg, key).dom().contains("mcp-proxy"@)
}

/// Whether the configuration `cfg` names the proxy.
pub fn is_listed(client: &ClientDef, cfg: &Json) -> (r: bool)
    ensures
        r == lists_proxy(cfg@, client.mcp_key@),
{
    match cfg.get(client.mcp_key.as_str()) {
        Some(servers) => servers.get("mcp-proxy").is_some(),
        None => false,
    }
}

/// Whether the proxy is installed in the client with the file `raw`.
pub fn is_installed(client: &ClientDef, raw: Option<&str>) -> (r: bool)
    ensures
        r == (config_of(crate::text::opt_slice(raw)) matches Some(cfg) && lists_proxy(
            cfg,
            client.mcp_key@,
        )),
{
    match read_config(raw) {
        Some(cfg) => is_listed(client, &cfg),
        None => false,
    }
}

/// The arguments of the bridge.
pub open spec fn bridge_args(profile: Option<Seq<char>>) -> Seq<Seq<char>> {
    match profile {
        Some(p) => seq!["bridge"@, "--profile"@, p],
        None => seq!["bridge"@],
    }
}

/// The entry for the proxy: the bridge, over standard input and output.
pub open spec fn proxy_entry(self_exe: Seq<char>, profile: Option<Seq<char>>) -> crate::json::JsonView {
    let args = bridge_args(profile);
    crate::json::JsonView::Object(
        crate::json::no_members().insert("type"@, crate::json::js("stdio"@)).insert(
            "command"@,
            crate::json::js(self_exe),
        ).insert(
            "args"@,
            crate::json::JsonView::Array(
                Seq::new(args.len(), |i: int| crate::json::js(args[i])),
            ),
        ),
    )
}

/// The server entry to write into a client's configuration. It is always the
/// bridge, so that the session ends when the client does and the environment
/// is forwarded.
pub fn mcp_entry(_client: &ClientDef, self_exe: &str, profile: Option<&str>) -> (r: Json)
    ensures
        r@ == proxy_entry(self_exe@, crate::text::opt_slice(profile)),
{
    let mut args: Vec<String> = Vec::new();
    args.push("bridge".to_owned());
    match profile {
        Some(p) => {
            args.push("--profile".to_owned());
            args.push(p.to_owned());
        },
        None => {},
    }
    let list = text_array(&args);
    proof {
        let want = bridge_args(crate::text::opt_slice(profile));
        assert(crate::text::texts(args@) =~= want);
        assert forall|i: int| 0 <= i < args@.len() implies args@[i]@ == want[i] by {
            assert(crate::text::texts(args@)[i] == args@[i]@);
        }
        assert(Seq::new(args@.len(), |i: int| crate::json::js(args@[i]@)) =~= Seq::new(
            want.len(),
            |i: int| crate::json::js(want[i]),
        ));
    }
    let mut m: Vec<(String, Json)> = Vec::new();
    assert(crate::json::members_view(m@) =~= crate::json::no_members());
    put(&mut m, "type", text("stdio"));
    put(&mut m, "command", text(self_exe));
    put(&mut m, "args", list);
    Json::Object(m)
}

/// Whether an entry can be added to a configuration: it is an object, and so is
/// what stands under `key`, if anything does.
pub open spec fn admits_entry(cfg: crate::json::JsonView, key: Seq<char>) -> bool {
    &&& cfg is Object
    &&& crate::json::member_of(cfg, key) matches Some(v) ==> v is Object
}

/// A configuration with an entry for the proxy.
pub open spec fn with_entry(
    cfg: crate::json::JsonView,
    key: Seq<char>,
    entry: crate::json::JsonView,
) -> crate::json::JsonView {
    crate::json::JsonView::Object(
        cfg->Object_0.insert(
            key,
            crate::json::JsonView::Object(servers_in(cfg, key).insert("mcp-proxy"@, entry)),
        ),
    )
}

/// A configuration without the entry for the proxy.
pub open spec fn without_entry(cfg: crate::json::JsonView, key: Seq<char>) -> crate::json::JsonView {
    crate::json::JsonView::Object(
        cfg->Object_0.insert(
            key,
            crate::json::JsonView::Object(servers_in(cfg, key).remove("mcp-proxy"@)),
        ),
    )
}

/// The configuration of a client that has none.
pub open spec fn fresh_config(key: Seq<char>) -> crate::json::JsonView {
    crate::json::JsonView::Object(
        crate::json::no_members().insert(
            key,
            crate::json::JsonView::Object(crate::json::no_members()),
        ),
    )
}

fn servers_copy(members: &Vec<(String, Json)>, key: &str) -> (r: Vec<(String, Json)>)
    ensures
        crate::json::members_view(r@) == servers_in(
            crate::json::JsonView::Object(crate::json::members_view(members@)),
            key@,
        ),
{
    match crate::json::last_named(members, key) {
        Some(i) => match members[i].1.duplicate() {
            Json::Object(m) => m,
            _ => Vec::new(),
        },
        None => Vec::new(),
    }
}

/// Adds `entry` to a configuration; `None` if it does not admit one.
pub fn add_entry(cfg: Json, key: &str, entry: Json) -> (r: Option<Json>)
    ensures
        r is Some == admits_entry(cfg@, key@),
        r matches Some(c) ==> c@ == with_entry(cfg@, key@, entry@),
{
    match cfg {
        Json::Object(members) => {
            match crate::json::last_named(&members, key) {
                Some(i) => match &members[i].1 {
                    Json::Object(_) => {},
                    _ => {
                        return None;
                    },
                },
                None => {},
            }
            let mut servers = servers_copy(&members, key);
            put(&mut servers, "mcp-proxy", entry);
            let mut members = members;
            put(&mut members, key, Json::Object(servers));
            Some(Json::Object(members))
        },
        _ => None,
    }
}

/// Takes the entry out of a configuration; `None` if there is none.
pub fn remove_entry(cfg: Json, key: &str) -> (r: Option<Json>)
    ensures
        r is Some == lists_proxy(cfg@, key@),
        r matches Some(c) ==> c@ == without_entry(cfg@, key@),
{
    match cfg {
        Json::Object(members) => {
            let servers = servers_copy(&members, key);
            if crate::json::last_named(&servers, "mcp-proxy").is_none() {
                return None;
            }
            let rest = take_out(servers, "mcp-proxy");
            let mut members = members;
            put(&mut members, key, Json::Object(rest));
            Some(Json::Object(members))
        },
        _ => None,
    }
}

/// The text to write to install the proxy in the client with the file `raw`: a
/// file that cannot be read counts as empty. `None` if the configuration does
/// not admit an entry.
pub fn install(client: &ClientDef, raw: Option<&str>, self_exe: &str, profile: Option<&str>) -> (r:
    Option<String>)
    ensures
        ({
            let key = client.mcp_key@;
            let cfg = match config_of(crate::text::opt_slice(raw)) {
                Some(c) => c,
                None => fresh_config(key),
            };
            &&& r is Some == admits_entry(cfg, key)
            &&& r matches Some(t) ==> t@ == crate::json::pretty_text(
                with_entry(
                    cfg,
                    key,
                    proxy_entry(self_exe@, crate::text::opt_slice(profile)),
                ),
            )
        }),
{
    let cfg: Json = match read_config(raw) {
        Some(c) => c,
        None => {
            let inner: Vec<(String, Json)> = Vec::new();
            assert(crate::json::members_view(inner@) =~= crate::json::no_members());
            let mut outer: Vec<(String, Json)> = Vec::new();
            assert(crate::json::members_view(outer@) =~= crate::json::no_members());
            put(&mut outer, client.mcp_key.as_str(), Json::Object(inner));
            Json::Object(outer)
        },
    };
    match add_entry(cfg, client.mcp_key.as_str(), mcp_entry(client, self_exe, profile)) {
        Some(c) => Some(c.to_pretty_text()),
        None => None,
    }
}

/// The text to write to remove the proxy from the client with the file `raw`;
/// `None` if it is not installed there.
pub fn uninstall(client: &ClientDef, raw: Option<&str>) -> (r: Option<String>)
    ensures
        ({
            let key = client.mcp_key@;
            let cfg = config_of(crate::text::opt_slice(raw));
            &&& r is Some == (cfg matches Some(c) && lists_proxy(c, key))
            &&& r matches Some(t) ==> t@ == crate::json::pretty_text(without_entry(cfg->0, key))
        }),
{
    match read_config(raw) {
        Some(cfg) => match remove_entry(cfg, client.mcp_key.as_str()) {
            Some(c) => Some(c.to_pretty_text()),
            None => None,
        },
        None => None,
    }
}

// ---------------------------------------------------------------------------
// Laws
// ---------------------------------------------------------------------------

/// After installing, the proxy is installed; after removing it, it is not.
pub proof fn installed_until_removed(
    cfg: crate::json::JsonView,
    key: Seq<char>,
    entry: crate::json::JsonView,
)
    requires
        admits_entry(cfg, key),
    ensures
        lists_proxy(with_entry(cfg, key, entry), key),
        servers_in(with_entry(cfg, key, entry), key)["mcp-proxy"@] == entry,
        !lists_proxy(without_entry(cfg, key), key),
{
}

/// Installing and removing touch nothing but the proxy's entry: every other
/// member of the configuration and every other server stays.
pub proof fn installing_touches_only_the_entry(
    cfg: crate::json::JsonView,
    key: Seq<char>,
    entry: crate::json::JsonView,
    other: Seq<char>,
)
    requires
        admits_entry(cfg, key),
    ensures
        other != key ==> crate::json::member_of(with_entry(cfg, key, entry), other)
            == crate::json::member_of(cfg, other) && crate::json::member_of(
            without_entry(cfg, key),
            other,
        ) == crate::json::member_of(cfg, other),
        other != "mcp-proxy"@ ==> crate::json::member_of(
            crate::json::JsonView::Object(servers_in(with_entry(cfg, key, entry), key)),
            other,
        ) == crate::json::member_of(crate::json::JsonView::Object(servers_in(cfg, key)), other)
            && crate::json::member_of(
            crate::json::JsonView::Object(servers_in(without_entry(cfg, key), key)),
            other,
        ) == crate::json::member_of(crate::json::JsonView::Object(servers_in(cfg, key)), other),
{
}

/// Removing undoes installing, where the configuration had servers but not the
/// proxy.
pub proof fn removing_undoes_installing(
    cfg: crate::json::JsonView,
    key: Seq<char>,
    entry: crate::json::JsonView,
)
    requires
        admits_entry(cfg, key),
        crate::json::member_of(cfg, key) is Some,
        !lists_proxy(cfg, key),
    ensures
        without_entry(with_entry(cfg, key, entry), key) == cfg,
{
    let back = without_entry(with_entry(cfg, key, entry), key);
    assert(servers_in(with_entry(cfg, key, entry), key).remove("mcp-proxy"@) =~= servers_in(
        cfg,
        key,
    ));
    assert(back->Object_0 =~= cfg->Object_0);
}

/// Installing again changes nothing.
pub proof fn installing_is_idempotent(
    cfg: crate::json::JsonView,
    key: Seq<char>,
    entry: crate::json::JsonView,
)
    requires
        admits_entry(cfg, key),
    ensures
        with_entry(with_entry(cfg, key, entry), key, entry) == with_entry(cfg, key, entry),
{
    let once = with_entry(cfg, key, entry);
    assert(servers_in(once, key).insert("mcp-proxy"@, entry) =~= servers_in(once, key));
    assert(with_entry(once, key, entry)->Object_0 =~= once->Object_0);
}

/// A client runs the program as a bridge, with the profile if there is one.
pub proof fn entry_runs_the_bridge(self_exe: Seq<char>, profile: Option<Seq<char>>)
    ensures
        ({
            let e = proxy_entry(self_exe, profile);
            &&& crate::json::member_of(e, "type"@) == Some(crate::json::JsonView::Str("stdio"@))
            &&& crate::json::member_of(e, "command"@) == Some(
                crate::json::JsonView::Str(self_exe),
            )
            &&& crate::json::member_of(e, "args"@) matches Some(crate::json::JsonView::Array(a))
            &&& a.len() == (if profile is Some {
                3int
            } else {
                1int
            })
            &&& a[0] == crate::json::JsonView::Str("bridge"@)
            &&& profile is Some ==> a[1] == crate::json::JsonView::Str("--profile"@) && a[2]
                == crate::json::JsonView::Str(profile->0)
        }),
{
    reveal_strlit("type");
    reveal_strlit("command");
    reveal_strlit("args");
    assert("type"@.len() == 4 && "command"@.len() == 7 && "args"@.len() == 4);
    assert("type"@[0] == 't' && "args"@[0] == 'a');
}

/// Where the clients of a system keep their configuration.
pub proof fn clients_are_found_at_home(vendor: Seq<char>, home: Seq<char>, os: Seq<char>)
    ensures
        known(None, home, os) == seq![augment(home)],
        known(Some(vendor), home, os).len() == 3,
        known(Some(vendor), home, os)[2] == augment(home),
        known(Some(vendor), home, os)[0].name == vendor + " Desktop"@,
        known(Some(vendor), home, os)[1].name == vendor + " CLI"@,
        forall|i: int|
            0 <= i < 3 ==> crate::text::begins(
                (#[trigger] known(Some(vendor), home, os)[i]).config_path,
                home,
            ),
        forall|i: int|
            0 <= i < 3 ==> (#[trigger] known(Some(vendor), home, os)[i]).mcp_key
                == "mcpServers"@,
{
    assert forall|i: int| 0 <= i < 3 implies crate::text::begins(
        (#[trigger] known(Some(vendor), home, os)[i]).config_path,
        home,
    ) by {
        let path = known(Some(vendor), home, os)[i].config_path;
        assert(path.subrange(0, home.len() as int) =~= home);
    }
}

/// A fresh configuration has no servers, and admits the proxy.
pub proof fn fresh_config_admits_the_proxy(key: Seq<char>)
    ensures
        admits_entry(fresh_config(key), key),
        !lists_proxy(fresh_config(key), key),
{
}

/// Where a system keeps what its applications write.
pub proof fn applications_write_by_system(os: Seq<char>)
    ensures
        os == "macos"@ ==> application_dir(os) == "Library/Application Support/"@,
        os == "windows"@ ==> application_dir(os) == "AppData/Roaming/"@,
        os != "macos"@ && os != "windows"@ ==> application_dir(os) == ".config/"@,
{
    reveal_strlit("macos");
    reveal_strlit("windows");
    assert("macos"@.len() != "windows"@.len());
}

} // verus!
