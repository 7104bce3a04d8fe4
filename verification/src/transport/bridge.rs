//! The bridge from stdio to HTTP: what it asks the hub for, what it sends with
//! each message, and what it makes of the responses.
use vstd::prelude::*;

use crate::config::{
    Config, OverrideView, ProfileConfig, ProfilesFile, ServerOverride, ServerView,
    expand_env_within, merge_names,
};
use crate::expand::Texts;
use crate::json::Json;
use crate::jsonrpc::codes;
use crate::names::NameMap;
use crate::pool::env_key::insert_in_order;
use crate::pool::relevant_env_keys;
use crate::text::{
    cat, chars_of, contains_sub, copy_texts, find_char, join, same_text, string_of, trim,
    without_prefix,
};
use crate::transport::{encode_env_header, headers};

verus! {

// ---------------------------------------------------------------------------
// What the bridge asks for
// ---------------------------------------------------------------------------

/// Some server refers to `key`.
pub open spec fn some_server_refers(servers: Seq<(Seq<char>, ServerView)>, key: Seq<char>) -> bool {
    exists|i: int|
        0 <= i < servers.len() && crate::pool::env_key::refers_to(
            (#[trigger] servers[i]).1,
            key,
        )
}

/// The variables that the servers of a config refer to, in order, each once.
pub fn auto_env_keys(config: &Config) -> (r: Vec<String>)
    ensures
        crate::pool::env_key::in_order(crate::text::texts(r@)),
        forall|key: Seq<char>| #[trigger]
            crate::text::texts(r@).contains(key) == some_server_refers(
                config.servers.pairs(),
                key,
            ),
{
    let ghost pairs = config.servers.pairs();
    let mut keys: Vec<String> = Vec::new();
    let n: usize = config.servers.len();
    let mut i: usize = 0;
    assert(crate::text::texts(keys@) =~= Seq::empty());
    while i < n
        invariant
            pairs == config.servers.pairs(),
            n == pairs.len(),
            i <= n,
            crate::pool::env_key::in_order(crate::text::texts(keys@)),
            forall|key: Seq<char>| #[trigger]
                crate::text::texts(keys@).contains(key) == some_server_refers(
                    pairs.take(i as int),
                    key,
                ),
        decreases n - i,
    {
        let found = relevant_env_keys(config.servers.value_at(i));
        let ghost all = crate::text::texts(found@);
        let ghost before = crate::text::texts(keys@);
        let mut k: usize = 0;
        while k < found.len()
            invariant
                all == crate::text::texts(found@),
                k <= found@.len(),
                crate::pool::env_key::in_order(crate::text::texts(keys@)),
                forall|key: Seq<char>| #[trigger]
                    crate::text::texts(keys@).contains(key) == (before.contains(key)
                        || exists|j: int| 0 <= j < k && #[trigger] all[j] == key),
            decreases found@.len() - k,
        {
            let ghost so_far = crate::text::texts(keys@);
            insert_in_order(&mut keys, found[k].clone());
            proof {
                assert forall|key: Seq<char>| #[trigger] crate::text::texts(keys@).contains(key)
                    == (before.contains(key) || exists|j: int|
                    0 <= j < k + 1 && #[trigger] all[j] == key) by {
                    if so_far.contains(key) && !before.contains(key) {
                        let j = choose|j: int| 0 <= j < k && #[trigger] all[j] == key;
                        assert(all[j] == key);
                    }
                    assert(all[k as int] == found@[k as int]@);
                }
            }
            k = k + 1;
        }
        proof {
            let a = pairs.take(i as int);
            let b = pairs.take(i + 1);
            assert forall|key: Seq<char>| #[trigger] crate::text::texts(keys@).contains(key)
                == some_server_refers(b, key) by {
                assert(all.contains(key) == crate::pool::env_key::refers_to(
                    pairs[i as int].1,
                    key,
                ));
                if some_server_refers(a, key) {
                    let j = choose|j: int|
                        0 <= j < a.len() && crate::pool::env_key::refers_to(
                            (#[trigger] a[j]).1,
                            key,
                        );
                    assert(b[j] == a[j]);
                }
                if some_server_refers(b, key) {
                    let j = choose|j: int|
                        0 <= j < b.len() && crate::pool::env_key::refers_to(
                            (#[trigger] b[j]).1,
                            key,
                        );
                    if j < i {
                        assert(a[j] == b[j]);
                    }
                }
                assert(b[i as int] == pairs[i as int]);
                assert(before.contains(key) == some_server_refers(a, key));
            }
        }
        i = i + 1;
    }
    assert(pairs.take(n as int) =~= pairs);
    keys
}

/// The variables of `names` that the process environment has.
pub open spec fn collected(names: Seq<Seq<char>>, process_env: Texts) -> Texts {
    Map::new(
        |k: Seq<char>| names.contains(k) && process_env.dom().contains(k),
        |k: Seq<char>| process_env[k],
    )
}

/// Collects variables by name from the process environment.
pub fn collect_env_overrides(names: &Vec<String>, process_env: &NameMap<String>) -> (r: NameMap<
    String,
>)
    ensures
        r@ == collected(crate::text::texts(names@), process_env@),
{
    let ghost all = crate::text::texts(names@);
    let mut out: NameMap<String> = NameMap::new();
    let mut i: usize = 0;
    while i < names.len()
        invariant
            all == crate::text::texts(names@),
            i <= names@.len(),
            forall|k: Seq<char>| #[trigger]
                out@.dom().contains(k) ==> all.contains(k) && process_env@.dom().contains(k)
                    && out@[k] == process_env@[k],
            forall|j: int|
                0 <= j < i && process_env@.dom().contains(#[trigger] all[j])
                    ==> out@.dom().contains(all[j]),
        decreases names@.len() - i,
    {
        match process_env.get(names[i].as_str()) {
            Some(v) => {
                assert(all.contains(all[i as int]));
                out.insert(names[i].clone(), v.clone());
            },
            None => {},
        }
        i = i + 1;
    }
    proof {
        assert forall|k: Seq<char>| all.contains(k) && process_env@.dom().contains(k) implies
            out@.dom().contains(k) by {
            let j = choose|j: int| 0 <= j < all.len() && all[j] == k;
            assert(out@.dom().contains(all[j]));
        }
        assert(out@ =~= collected(all, process_env@));
    }
    out
}

/// The variables of an override, expanded from the process environment.
pub open spec fn expanded_env(env: Texts, process_env: Texts) -> Texts {
    Map::new(
        |k: Seq<char>| env.dom().contains(k),
        |k: Seq<char>|
            crate::expand::expansion(
                env[k],
                crate::config::var_marks(),
                crate::pool::no_texts(),
                process_env,
            ),
    )
}

/// `base` with the variables of the overrides that it does not have; of two
/// overrides with one variable the first counts.
pub open spec fn with_profile_env(
    base: Texts,
    overrides: Seq<(Seq<char>, OverrideView)>,
    process_env: Texts,
) -> Texts
    decreases overrides.len(),
{
    if overrides.len() == 0 {
        base
    } else {
        let before = with_profile_env(base, overrides.drop_last(), process_env);
        match overrides.last().1.env {
            Some(e) => expanded_env(e, process_env).union_prefer_right(before),
            None => before,
        }
    }
}

/// Every variable of `extra` that `env` does not have is expanded by at most
/// `limit` replacements.
pub open spec fn missing_settle(env: Texts, extra: Texts, process_env: Texts, limit: nat) -> bool {
    forall|k: Seq<char>| #[trigger]
        extra.dom().contains(k) && !env.dom().contains(k) ==> crate::expand::settles_by(
            extra[k],
            crate::config::var_marks(),
            crate::pool::no_texts(),
            process_env,
            limit,
        )
}

/// Every variable that the profile adds is expanded by at most `limit`
/// replacements.
pub open spec fn profile_env_settles(
    base: Texts,
    overrides: Seq<(Seq<char>, OverrideView)>,
    process_env: Texts,
    limit: nat,
) -> bool
    decreases overrides.len(),
{
    if overrides.len() == 0 {
        true
    } else {
        let before = with_profile_env(base, overrides.drop_last(), process_env);
        profile_env_settles(base, overrides.drop_last(), process_env, limit)
            && match overrides.last().1.env {
            Some(e) => missing_settle(before, e, process_env, limit),
            None => true,
        }
    }
}

/// Adds the variables of one override that `env` does not have.
fn add_missing(
    env: &mut NameMap<String>,
    extra: &NameMap<String>,
    process_env: &NameMap<String>,
    limit: u64,
) -> (r: bool)
    ensures
        r == missing_settle(old(env)@, extra@, process_env@, limit as nat),
        r ==> final(env)@ == expanded_env(extra@, process_env@).union_prefer_right(old(env)@),
{
    let ghost before = env@;
    let ghost pairs = extra.pairs();
    let nothing: NameMap<String> = NameMap::new();
    let n: usize = extra.len();
    let mut i: usize = 0;
    while i < n
        invariant
            before == old(env)@,
            pairs == extra.pairs(),
            crate::names::distinct_names(pairs),
            n == pairs.len(),
            i <= n,
            nothing@ == crate::pool::no_texts(),
            forall|k: Seq<char>| #[trigger]
                before.dom().contains(k) ==> env@.dom().contains(k) && env@[k] == before[k],
            forall|k: Seq<char>| #[trigger]
                env@.dom().contains(k) && !before.dom().contains(k) ==> extra@.dom().contains(k)
                    && env@[k] == crate::expand::expansion(
                    extra@[k],
                    crate::config::var_marks(),
                    crate::pool::no_texts(),
                    process_env@,
                ) && crate::expand::settles_by(
                    extra@[k],
                    crate::config::var_marks(),
                    crate::pool::no_texts(),
                    process_env@,
                    limit as nat,
                ) && exists|j: int| 0 <= j < i && #[trigger] pairs[j].0 == k,
            forall|j: int| 0 <= j < i ==> env@.dom().contains(#[trigger] pairs[j].0),
        decreases n - i,
    {
        let name: &String = extra.name_at(i);
        proof {
            crate::names::lemma_place(pairs, i as int);
        }
        let ghost now = env@;
        if !env.contains(name.as_str()) {
            match expand_env_within(extra.value_at(i).as_str(), &nothing, process_env, limit) {
                Some(v) => {
                    env.insert(name.clone(), v);
                },
                None => {
                    proof {
                        let k = pairs[i as int].0;
                        assert(extra@.dom().contains(k) && !before.dom().contains(k));
                        assert(!crate::expand::settles_by(
                            extra@[k],
                            crate::config::var_marks(),
                            crate::pool::no_texts(),
                            process_env@,
                            limit as nat,
                        ));
                    }
                    return false;
                },
            }
        }
        proof {
            assert forall|k: Seq<char>| #[trigger]
                env@.dom().contains(k) && !before.dom().contains(k) implies exists|j: int|
                0 <= j < i + 1 && #[trigger] pairs[j].0 == k by {
                if k == pairs[i as int].0 {
                } else {
                    assert(now.dom().contains(k));
                    let j = choose|j: int| 0 <= j < i && #[trigger] pairs[j].0 == k;
                    assert(pairs[j].0 == k);
                }
            }
        }
        i = i + 1;
    }
    proof {
        assert forall|k: Seq<char>| extra@.dom().contains(k) implies env@.dom().contains(k) by {
            let p = crate::names::place_of(pairs, k);
            assert(crate::names::has_name(pairs, k));
            assert(env@.dom().contains(pairs[p].0));
        }
        assert(env@ =~= expanded_env(extra@, process_env@).union_prefer_right(before));
    }
    true
}

/// What the bridge asks the hub for.
pub struct BridgePlan {
    /// The servers; all if empty.
    pub servers: Vec<String>,
    /// The variables to override.
    pub env: NameMap<String>,
    /// The overrides header.
    pub env_header: Option<String>,
    /// The servers header.
    pub servers_header: Option<String>,
}

/// How planning ends.
pub enum Planned {
    /// With a plan.
    Ready(BridgePlan),
    /// There is no such profile.
    UnknownProfile(String),
    /// The profile excludes all servers.
    NoServers(String),
    /// A variable needs more replacements than allowed.
    Unsettled,
}

/// The variables that the bridge takes from the process environment: those
/// that the servers refer to, and those that are to be forwarded.
pub open spec fn base_env(
    servers: Seq<(Seq<char>, ServerView)>,
    forward: Seq<Seq<char>>,
    process_env: Texts,
) -> Texts {
    Map::new(
        |k: Seq<char>|
            (some_server_refers(servers, k) || forward.contains(k))
                && process_env.dom().contains(k),
        |k: Seq<char>| process_env[k],
    )
}

/// The servers that the bridge asks for: those given, else those of the
/// profile.
pub open spec fn bridge_servers(given: Seq<Seq<char>>, profile: Option<Seq<Seq<char>>>) -> Seq<
    Seq<char>,
> {
    if given.len() > 0 {
        given
    } else {
        match profile {
            Some(p) => p,
            None => given,
        }
    }
}

/// The overrides of a profile, in order.
pub open spec fn overrides_in(profiles: ProfilesFile, name: Seq<char>) -> Seq<
    (Seq<char>, OverrideView),
> {
    let i = crate::names::place_of(profiles.profiles.pairs(), name);
    profiles.profiles.values()[i].servers.pairs()
}

/// The plan asks for these servers with these variables.
pub open spec fn plan_is(plan: BridgePlan, servers: Seq<Seq<char>>, env: Texts) -> bool {
    &&& crate::text::texts(plan.servers@) == servers
    &&& plan.env@ == env
    &&& plan.env_header is None == (env == crate::pool::no_texts())
    &&& plan.env_header matches Some(h) ==> h@ == crate::transport::env_header(env)
        && crate::transport::header_env(h@) == env
    &&& plan.servers_header is None == (servers.len() == 0)
    &&& plan.servers_header matches Some(h) ==> h@ == crate::text::joined(servers, ","@)
}

/// The servers that there are to pick from: those of the config that are not
/// disabled.
pub open spec fn active_in(config: Option<&Config>, process_env: Texts) -> Seq<Seq<char>> {
    match config {
        Some(c) => crate::config::active_names(c.servers.pairs(), process_env),
        None => Seq::empty(),
    }
}

/// The message for a profile that excludes all servers.
pub open spec fn no_servers(profile: Seq<char>) -> Seq<char> {
    "profile '"@ + profile + "' leaves no servers"@
}

/// Plans a bridge. The variables that the config's servers refer to, and those
/// to forward, come from the process environment; those of the profile are
/// added where they are missing. The given servers win over those that the
/// profile picks.
pub fn plan(
    config: Option<&Config>,
    profile: Option<&str>,
    profiles: &ProfilesFile,
    servers: &Vec<String>,
    forward_env: &Vec<String>,
    process_env: &NameMap<String>,
    limit: u64,
) -> (r: Planned)
    ensures
        bridge_is_planned(
            r,
            config,
            crate::text::opt_slice(profile),
            *profiles,
            crate::text::texts(servers@),
            crate::text::texts(forward_env@),
            process_env@,
            limit as nat,
        ),
{
    let auto: Vec<String> = match config {
        Some(c) => auto_env_keys(c),
        None => Vec::new(),
    };
    let ghost known = match config {
        Some(c) => c.servers.pairs(),
        None => Seq::empty(),
    };
    let mut env = collect_env_overrides(&auto, process_env);
    let forwarded = collect_env_overrides(forward_env, process_env);
    merge_names(&mut env, &forwarded);
    let ghost base = base_env(known, crate::text::texts(forward_env@), process_env@);
    proof {
        assert forall|key: Seq<char>| #[trigger] crate::text::texts(auto@).contains(key)
            == some_server_refers(known, key) by {
            if config is None {
                assert(crate::text::texts(auto@).len() == 0);
            }
        }
        assert(env@ =~= base);
    }
    let mut list: Vec<String> = copy_texts(servers);
    assert(crate::text::texts(servers@).len() == servers@.len());
    assert(crate::text::texts(list@).len() == list@.len());
    match profile {
        None => {},
        Some(name) => match profiles.profiles.find(name) {
            None => {
                return Planned::UnknownProfile(cat("unknown local profile: ", name));
            },
            Some(at) => {
                let prof: &ProfileConfig = profiles.profiles.value_at(at);
                let ghost overrides = prof.servers.pairs();
                let active: Vec<String> = match config {
                    Some(c) => c.active_server_names(process_env),
                    None => Vec::new(),
                };
                assert(crate::text::texts(active@) =~= active_in(config, process_env@));
                if list.len() == 0 {
                    match prof.pick_servers(&active) {
                        Some(names) => {
                            list = names;
                        },
                        None => {
                            let mut m = cat("profile '", name);
                            m.append("' leaves no servers");
                            return Planned::NoServers(m);
                        },
                    }
                }
                assert(crate::text::texts(list@) =~= bridge_servers(
                    crate::text::texts(servers@),
                    Some(
                        crate::config::profile_servers(prof@, active_in(config, process_env@)),
                    ),
                ));
                let n: usize = prof.servers.len();
                let mut i: usize = 0;
                assert(overrides.take(0) =~= Seq::empty());
                while i < n
                    invariant
                        overrides == prof.servers.pairs(),
                        overrides == overrides_in(*profiles, name@),
                        n == overrides.len(),
                        i <= n,
                        profile == Some(name),
                        crate::text::texts(servers@).len() > 0 || !crate::config::leaves_nothing(
                            prof@,
                            active_in(config, process_env@),
                        ),
                        profiles@.dom().contains(name@),
                        profiles@[name@] == prof@,
                        base == base_env(
                            match config {
                                Some(c) => c.servers.pairs(),
                                None => Seq::empty(),
                            },
                            crate::text::texts(forward_env@),
                            process_env@,
                        ),
                        profile_env_settles(
                            base,
                            overrides.take(i as int),
                            process_env@,
                            limit as nat,
                        ),
                        env@ == with_profile_env(base, overrides.take(i as int), process_env@),
                    decreases n - i,
                {
                    assert(overrides.take(i + 1).drop_last() =~= overrides.take(i as int));
                    assert(overrides.take(i + 1).last() == overrides[i as int]);
                    let ovr: &ServerOverride = prof.servers.value_at(i);
                    match &ovr.env {
                        Some(extra) => {
                            let done: bool = add_missing(&mut env, extra, process_env, limit);
                            if !done {
                                proof {
                                    if profile_env_settles(
                                        base,
                                        overrides,
                                        process_env@,
                                        limit as nat,
                                    ) {
                                        lemma_settles_prefix(
                                            base,
                                            overrides,
                                            i + 1,
                                            process_env@,
                                            limit as nat,
                                        );
                                    }
                                }
                                return Planned::Unsettled;
                            }
                        },
                        None => {},
                    }
                    i = i + 1;
                }
                assert(overrides.take(n as int) =~= overrides);
            },
        },
    }
    let env_header = encode_env_header(&env);
    let servers_header: Option<String> = if list.len() == 0 {
        None
    } else {
        Some(join(&list, ","))
    };
    assert(crate::text::texts(list@).len() == list@.len());
    Planned::Ready(BridgePlan { servers: list, env, env_header, servers_header })
}

proof fn lemma_settles_prefix(
    base: Texts,
    overrides: Seq<(Seq<char>, OverrideView)>,
    i: int,
    process_env: Texts,
    limit: nat,
)
    requires
        0 <= i <= overrides.len(),
        profile_env_settles(base, overrides, process_env, limit),
    ensures
        profile_env_settles(base, overrides.take(i), process_env, limit),
    decreases overrides.len(),
{
    if i < overrides.len() {
        lemma_settles_prefix(base, overrides.drop_last(), i, process_env, limit);
        assert(overrides.drop_last().take(i) =~= overrides.take(i));
    } else {
        assert(overrides.take(i) =~= overrides);
    }
}

// ---------------------------------------------------------------------------
// What the bridge sends
// ---------------------------------------------------------------------------

/// What the bridge plans: whom to ask for and what to forward, by its arguments
/// and the profile.
pub open spec fn bridge_is_planned(
    r: Planned,
    config: Option<&Config>,
    profile: Option<Seq<char>>,
    profiles: ProfilesFile,
    given: Seq<Seq<char>>,
    forward: Seq<Seq<char>>,
    process_env: Texts,
    limit: nat,
) -> bool {
    let known = match config {
        Some(c) => c.servers.pairs(),
        None => Seq::empty(),
    };
    let base = base_env(known, forward, process_env);
    match profile {
        None => r matches Planned::Ready(p) && plan_is(p, bridge_servers(given, None), base),
        Some(name) => if !profiles@.dom().contains(name) {
            r matches Planned::UnknownProfile(m) && m@ == "unknown local profile: "@ + name
        } else {
            let prof = profiles@[name];
            let active = active_in(config, process_env);
            let overrides = overrides_in(profiles, name);
            if given.len() == 0 && crate::config::leaves_nothing(prof, active) {
                r matches Planned::NoServers(m) && m@ == no_servers(name)
            } else if profile_env_settles(base, overrides, process_env, limit) {
                r matches Planned::Ready(p) && plan_is(
                    p,
                    bridge_servers(given, Some(crate::config::profile_servers(prof, active))),
                    with_profile_env(base, overrides, process_env),
                )
            } else {
                r is Unsettled
            }
        },
    }
}

/// What the head of a response from the hub comes to: a failure is reported for
/// the request; else the session it names is kept, and its kind says how the
/// rest is read.
pub open spec fn head_is_taken(
    r: Reaction,
    before: Option<Seq<char>>,
    after: Option<Seq<char>>,
    id: crate::json::JsonView,
    success: bool,
    status: Seq<char>,
    present: bool,
    named: Option<Seq<char>>,
    content_type: Option<Seq<char>>,
) -> bool {
    &&& !success ==> after == before && (r matches Reaction::Failed(line) && line@
        == crate::json::compact_text(
        crate::jsonrpc::err_json(id, -32000, "hub returned HTTP "@ + status),
    ))
    &&& success ==> after == (if present {
        named
    } else {
        before
    })
    &&& success ==> if content_type matches Some(t) && crate::text::contains_pat(
        t,
        "text/event-stream"@,
    ) {
        r is Stream
    } else {
        r is Body
    }
}

/// What a list of headers stands for.
pub open spec fn header_pairs(s: Seq<(String, String)>) -> Seq<(Seq<char>, Seq<char>)> {
    Seq::new(s.len(), |i: int| (s[i].0@, s[i].1@))
}

/// The headers of a message to the hub.
pub open spec fn message_headers(
    session: Option<Seq<char>>,
    env_header: Option<Seq<char>>,
    servers_header: Option<Seq<char>>,
) -> Seq<(Seq<char>, Seq<char>)> {
    let a = seq![
        ("content-type"@, "application/json"@),
        ("accept"@, "application/json, text/event-stream"@),
    ];
    let b = match session {
        Some(s) => a.push(("mcp-session-id"@, s)),
        None => a,
    };
    let c = match env_header {
        Some(h) => b.push(("x-mcp-env"@, h)),
        None => b,
    };
    match servers_header {
        Some(h) => c.push(("x-mcp-servers"@, h)),
        None => c,
    }
}

fn push_header(v: &mut Vec<(String, String)>, name: &str, value: &str)
    ensures
        header_pairs(final(v)@) == header_pairs(old(v)@).push((name@, value@)),
{
    let ghost before = v@;
    v.push((name.to_owned(), value.to_owned()));
    assert(header_pairs(v@) =~= header_pairs(before).push((name@, value@)));
}

/// The headers of a message to the hub.
pub fn request_headers(plan: &BridgePlan, session: &Option<String>) -> (r: Vec<(String, String)>)
    ensures
        header_pairs(r@) == message_headers(
            crate::text::opt_text(*session),
            crate::text::opt_text(plan.env_header),
            crate::text::opt_text(plan.servers_header),
        ),
{
    let mut v: Vec<(String, String)> = Vec::new();
    push_header(&mut v, "content-type", "application/json");
    push_header(&mut v, "accept", "application/json, text/event-stream");
    assert(header_pairs(v@) =~= seq![
        ("content-type"@, "application/json"@),
        ("accept"@, "application/json, text/event-stream"@),
    ]);
    match session {
        Some(s) => {
            push_header(&mut v, headers::SESSION_ID, s.as_str());
        },
        None => {},
    }
    match &plan.env_header {
        Some(h) => {
            push_header(&mut v, headers::ENV, h.as_str());
        },
        None => {},
    }
    match &plan.servers_header {
        Some(h) => {
            push_header(&mut v, headers::SERVERS, h.as_str());
        },
        None => {},
    }
    v
}

/// A message that the bridge sends on.
pub struct Message {
    /// The text to send.
    pub body: String,
    /// The id for an error response; null if it has none.
    pub id: Json,
}

/// The message in a line of input; a blank line has none.
pub fn message(line: &str) -> (r: Option<Message>)
    ensures
        r is Some == (crate::text::trimmed(line@).len() > 0),
        r matches Some(m) ==> m.body@ == crate::text::trimmed(line@) && m.id@ == (match
            crate::json::parsed_json(vstd::utf8::encode_utf8(crate::text::trimmed(line@))) {
            Some(v) => crate::server::or_null(crate::json::member_of(v, "id"@)),
            None => crate::json::JsonView::Null,
        }),
{
    let body = trim(line);
    if body.as_str().unicode_len() == 0 {
        return None;
    }
    let id: Json = match Json::parse(body.as_str()) {
        Some(v) => v.get_or_null("id"),
        None => Json::Null,
    };
    Some(Message { body, id })
}

// ---------------------------------------------------------------------------
// What the bridge makes of responses
// ---------------------------------------------------------------------------

/// The line for a response with an error status.
fn status_error(id: &Json, status: &str) -> (r: String)
    ensures
        r@ == crate::json::compact_text(
            crate::jsonrpc::err_json(id@, -32000, "hub returned HTTP "@ + status@),
        ),
{
    let message = cat("hub returned HTTP ", status);
    let body = crate::jsonrpc::err(id, codes::INTERNAL, message.as_str());
    body.to_text()
}

/// The line for a request that failed for the reason `e`.
pub fn send_error(id: &Json, e: &str) -> (r: String)
    ensures
        r@ == crate::json::compact_text(
            crate::jsonrpc::err_json(id@, -32000, "bridge error: "@ + e@),
        ),
{
    let message = cat("bridge error: ", e);
    let body = crate::jsonrpc::err(id, codes::INTERNAL, message.as_str());
    body.to_text()
}

/// Whether a response is a stream of events.
fn is_stream(content_type: Option<&str>) -> (r: bool)
    ensures
        r == (content_type matches Some(t) && crate::text::contains_pat(
            t@,
            "text/event-stream"@,
        )),
{
    match content_type {
        Some(t) => contains_sub(t, "text/event-stream"),
        None => false,
    }
}

/// What the head of a response leads to.
#[derive(Debug)]
pub enum Reaction {
    /// The hub answers with an error: write this line.
    Failed(String),
    /// A stream of events follows.
    Stream,
    /// A body follows.
    Body,
}

/// Reads the head of the response to the request `id`: its status, the session
/// header, whether `present` and what it says, and the content type.
pub fn on_head(
    session: &mut Option<String>,
    id: &Json,
    success: bool,
    status: &str,
    present: bool,
    named: Option<&str>,
    content_type: Option<&str>,
) -> (r: Reaction)
    ensures
        !success ==> *final(session) == *old(session),
        head_is_taken(
            r,
            crate::text::opt_text(*old(session)),
            crate::text::opt_text(*final(session)),
            id@,
            success,
            status@,
            present,
            crate::text::opt_slice(named),
            crate::text::opt_slice(content_type),
        ),
{
    if !success {
        return Reaction::Failed(status_error(id, status));
    }
    if present {
        *session = match named {
            Some(s) => Some(s.to_owned()),
            None => None,
        };
    }
    if is_stream(content_type) {
        Reaction::Stream
    } else {
        Reaction::Body
    }
}

/// The headers of the request that ends the session, if there is one.
pub fn closing_headers(session: &Option<String>) -> (r: Option<Vec<(String, String)>>)
    ensures
        r is Some == *session is Some,
        r matches Some(h) ==> header_pairs(h@) == seq![("mcp-session-id"@, (*session)->0@)],
{
    match session {
        Some(s) => {
            let mut v: Vec<(String, String)> = Vec::new();
            push_header(&mut v, headers::SESSION_ID, s.as_str());
            assert(header_pairs(v@) =~= seq![("mcp-session-id"@, s@)]);
            Some(v)
        },
        None => None,
    }
}

/// The line for the body of a response that is no stream; a blank body has
/// none.
pub fn body_line(body: &str) -> (r: Option<String>)
    ensures
        crate::text::opt_text(r) == (if crate::text::trimmed(body@).len() > 0 {
            Some(crate::text::trimmed(body@))
        } else {
            None
        }),
{
    let s = trim(body);
    if s.as_str().unicode_len() == 0 {
        None
    } else {
        Some(s)
    }
}

/// What a line of a stream of events is for.
#[derive(Debug)]
pub enum Event {
    /// A backend has started.
    BackendReady { server: String, tools: u64 },
    /// A backend has failed.
    BackendFailed { server: String, error: String },
    /// Some other progress.
    OtherProgress,
    /// A message for the client.
    Forward(String),
}

/// What an event stands for.
pub enum EventView {
    BackendReady { server: Seq<char>, tools: int },
    BackendFailed { server: Seq<char>, error: Seq<char> },
    OtherProgress,
    Forward(Seq<char>),
}

impl View for Event {
    type V = EventView;

    open spec fn view(&self) -> EventView {
        match *self {
            Event::BackendReady { server, tools } => EventView::BackendReady {
                server: server@,
                tools: tools as int,
            },
            Event::BackendFailed { server, error } => EventView::BackendFailed {
                server: server@,
                error: error@,
            },
            Event::OtherProgress => EventView::OtherProgress,
            Event::Forward(s) => EventView::Forward(s@),
        }
    }
}

/// What a piece of progress says.
pub open spec fn progress_of(v: crate::json::JsonView) -> EventView {
    let server = crate::json::text_or_unknown(v, "server"@);
    let status = crate::json::text_or_unknown(v, "status"@);
    if status == "ready"@ {
        EventView::BackendReady {
            server,
            tools: match crate::json::uint_of(crate::json::member_of(v, "tools"@)) {
                Some(n) => n,
                None => 0,
            },
        }
    } else if status == "failed"@ {
        EventView::BackendFailed { server, error: crate::json::text_or_unknown(v, "error"@) }
    } else {
        EventView::OtherProgress
    }
}

/// The data of a line of a stream: what follows `data: `, without white space
/// around it, unless that is nothing.
pub open spec fn data_of(line: Seq<char>) -> Option<Seq<char>> {
    let l = crate::text::trimmed(line);
    if crate::text::begins(l, "data: "@) {
        let d = crate::text::trimmed(l.subrange("data: "@.len() as int, l.len() as int));
        if d.len() == 0 {
            None
        } else {
            Some(d)
        }
    } else {
        None
    }
}

/// The event in a line of a stream, if there is one: progress if its data is
/// JSON with a member `_progress`, else a message for the client.
pub open spec fn event_of(line: Seq<char>) -> Option<EventView> {
    match data_of(line) {
        None => None,
        Some(d) => match crate::json::parsed_json(vstd::utf8::encode_utf8(d)) {
            Some(v) => if crate::json::member_of(v, "_progress"@) is Some {
                Some(progress_of(v))
            } else {
                Some(EventView::Forward(d))
            },
            None => Some(EventView::Forward(d)),
        },
    }
}

/// The events in the lines, in order.
pub open spec fn events_of(lines: Seq<Seq<char>>) -> Seq<EventView>
    decreases lines.len(),
{
    if lines.len() == 0 {
        Seq::empty()
    } else {
        let before = events_of(lines.drop_last());
        match event_of(lines.last()) {
            Some(e) => before.push(e),
            None => before,
        }
    }
}

/// What an optional event stands for.
pub open spec fn opt_event(o: Option<Event>) -> Option<EventView> {
    match o {
        Some(e) => Some(e@),
        None => None,
    }
}

/// What a list of events stands for.
pub open spec fn events_view(s: Seq<Event>) -> Seq<EventView> {
    Seq::new(s.len(), |i: int| s[i]@)
}

fn read_progress(v: &Json) -> (r: Event)
    ensures
        r@ == progress_of(v@),
{
    let server = v.text_or("server", "?");
    let status = v.text_or("status", "?");
    if same_text(status.as_str(), "ready") {
        Event::BackendReady { server, tools: v.uint_or_zero("tools") }
    } else if same_text(status.as_str(), "failed") {
        Event::BackendFailed { server, error: v.text_or("error", "?") }
    } else {
        Event::OtherProgress
    }
}

/// Reads a line of a stream.
pub fn read_event(line: &str) -> (r: Option<Event>)
    ensures
        opt_event(r) == event_of(line@),
{
    let l = trim(line);
    match without_prefix(l.as_str(), "data: ") {
        None => None,
        Some(rest) => {
            assert(l@.subrange("data: "@.len() as int, l@.len() as int) =~= rest@);
            let d = trim(rest.as_str());
            if d.as_str().unicode_len() == 0 {
                return None;
            }
            match Json::parse(d.as_str()) {
                Some(v) => {
                    if v.get("_progress").is_some() {
                        Some(read_progress(&v))
                    } else {
                        Some(Event::Forward(d))
                    }
                },
                None => Some(Event::Forward(d)),
            }
        },
    }
}

/// The lines of a stream that have not been complete so far.
pub struct LineBuffer {
    pub rest: String,
}

/// The complete lines of a text.
pub open spec fn whole_lines(s: Seq<char>) -> Seq<Seq<char>> {
    crate::text::pieces(s, '\n').drop_last()
}

/// What follows the last complete line of a text.
pub open spec fn last_line(s: Seq<char>) -> Seq<char> {
    crate::text::pieces(s, '\n').last()
}

impl LineBuffer {
    /// An empty buffer.
    pub fn new() -> (r: Self)
        ensures
            r.rest@ == Seq::<char>::empty(),
    {
        LineBuffer { rest: String::new() }
    }

    /// Takes a chunk of the stream: the events of the lines that are complete
    /// now. What follows them is kept.
    pub fn feed(&mut self, chunk: &str) -> (r: Vec<Event>)
        ensures
            events_view(r@) == events_of(whole_lines(old(self).rest@ + chunk@)),
            final(self).rest@ == last_line(old(self).rest@ + chunk@),
    {
        let all = cat(self.rest.as_str(), chunk);
        let cs = chars_of(all.as_str());
        let n: usize = cs.len();
        let mut out: Vec<Event> = Vec::new();
        let mut from: usize = 0;
        let ghost mut done = Seq::<Seq<char>>::empty();
        assert(events_view(out@) =~= events_of(done));
        let ghost parts = crate::text::pieces(all@, '\n');
        assert(done + crate::text::pieces_from(cs@, '\n', 0) =~= parts);
        loop
            invariant
                cs@ == all@,
                all@ == old(self).rest@ + chunk@,
                n == cs@.len(),
                from <= n,
                parts == crate::text::pieces(all@, '\n'),
                events_view(out@) == events_of(done),
                done + crate::text::pieces_from(cs@, '\n', from as int) == parts,
            decreases n - from,
        {
            let i = find_char(&cs, '\n', from);
            if i < n {
                let line = string_of(&cs, from, i);
                let ghost before = out@;
                match read_event(line.as_str()) {
                    Some(e) => {
                        let ghost added = e@;
                        out.push(e);
                        assert(events_view(out@) =~= events_view(before).push(added));
                    },
                    None => {},
                }
                proof {
                    let longer = done.push(line@);
                    assert(longer.drop_last() =~= done);
                    assert(longer + crate::text::pieces_from(cs@, '\n', i + 1) =~= done + (seq![
                        line@,
                    ] + crate::text::pieces_from(cs@, '\n', i + 1)));
                    done = longer;
                }
                from = i + 1;
            } else {
                let last = string_of(&cs, from, n);
                proof {
                    assert(parts =~= done.push(last@));
                    assert(parts.drop_last() =~= done);
                }
                self.rest = last;
                return out;
            }
        }
    }
}

// ---------------------------------------------------------------------------
// Laws
// ---------------------------------------------------------------------------

/// There is always a last line.
proof fn lemma_some_piece(s: Seq<char>, c: char, from: int)
    requires
        0 <= from <= s.len(),
    ensures
        crate::text::pieces_from(s, c, from).len() > 0,
{
    crate::text::lemma_place_of_char(s, c, from);
}

/// Cutting a text and then cutting its last piece together with more text
/// gives the same pieces as cutting all at once.
proof fn lemma_pieces_append(a: Seq<char>, b: Seq<char>, c: char, from: int)
    requires
        0 <= from <= a.len(),
    ensures
        ({
            let first = crate::text::pieces_from(a, c, from);
            crate::text::pieces_from(a + b, c, from) == first.drop_last() + crate::text::pieces(
                first.last() + b,
                c,
            )
        }),
    decreases a.len() - from,
{
    let ab = a + b;
    let first = crate::text::pieces_from(a, c, from);
    crate::text::lemma_place_of_char(a, c, from);
    crate::text::lemma_place_of_char(ab, c, from);
    let i = crate::text::place_of_char(a, c, from);
    if i < a.len() {
        lemma_first_place(a, ab, c, from, i);
        lemma_pieces_append(a, b, c, i + 1);
        lemma_some_piece(a, c, i + 1);
        let rest = crate::text::pieces_from(a, c, i + 1);
        assert(first =~= seq![a.subrange(from, i)] + rest);
        assert(first.drop_last() =~= seq![a.subrange(from, i)] + rest.drop_last());
        assert(first.last() == rest.last());
        assert(ab.subrange(from, i) =~= a.subrange(from, i));
        assert(crate::text::pieces_from(ab, c, from) =~= first.drop_last() + crate::text::pieces(
            first.last() + b,
            c,
        ));
    } else {
        let tail = a.subrange(from, a.len() as int);
        assert(first =~= seq![tail]);
        assert(first.drop_last() =~= Seq::<Seq<char>>::empty());
        assert(ab.subrange(from, ab.len() as int) =~= (tail + b).subrange(
            0,
            (tail + b).len() as int,
        ));
        lemma_shift(ab, tail + b, c, from, 0);
        assert(crate::text::pieces_from(ab, c, from) =~= first.drop_last() + crate::text::pieces(
            tail + b,
            c,
        ));
    }
}

proof fn lemma_first_place(a: Seq<char>, ab: Seq<char>, c: char, from: int, i: int)
    requires
        0 <= from <= i < a.len(),
        a.len() <= ab.len(),
        forall|k: int| 0 <= k < a.len() ==> a[k] == ab[k],
        a[i] == c,
        forall|k: int| from <= k < i ==> a[k] != c,
    ensures
        crate::text::place_of_char(ab, c, from) == i,
    decreases i - from,
{
    if from < i {
        assert(a[from] == ab[from]);
        lemma_first_place(a, ab, c, from + 1, i);
    } else {
        assert(ab[i] == a[i]);
    }
}

/// Two texts that agree from two places on have the same pieces from there.
proof fn lemma_shift(s: Seq<char>, t: Seq<char>, c: char, i: int, j: int)
    requires
        0 <= i <= s.len(),
        0 <= j <= t.len(),
        s.subrange(i, s.len() as int) == t.subrange(j, t.len() as int),
    ensures
        crate::text::pieces_from(s, c, i) == crate::text::pieces_from(t, c, j),
    decreases s.len() - i,
{
    let u = s.subrange(i, s.len() as int);
    let w = t.subrange(j, t.len() as int);
    assert(u.len() == s.len() - i && w.len() == t.len() - j);
    crate::text::lemma_place_of_char(s, c, i);
    crate::text::lemma_place_of_char(t, c, j);
    let p = crate::text::place_of_char(s, c, i);
    let q = crate::text::place_of_char(t, c, j);
    assert(p - i == q - j) by {
        if p - i < q - j {
            assert(u[p - i] == s[p] && w[p - i] == t[j + (p - i)]);
        } else if q - j < p - i {
            assert(w[q - j] == t[q] && u[q - j] == s[i + (q - j)]);
        }
    }
    assert(u.subrange(0, p - i) =~= s.subrange(i, p));
    assert(w.subrange(0, q - j) =~= t.subrange(j, q));
    if p < s.len() {
        assert(u.subrange(p + 1 - i, u.len() as int) =~= s.subrange(p + 1, s.len() as int));
        assert(w.subrange(q + 1 - j, w.len() as int) =~= t.subrange(q + 1, t.len() as int));
        lemma_shift(s, t, c, p + 1, q + 1);
    }
}

proof fn lemma_events_add(a: Seq<Seq<char>>, b: Seq<Seq<char>>)
    ensures
        events_of(a + b) == events_of(a) + events_of(b),
    decreases b.len(),
{
    if b.len() == 0 {
        assert(a + b =~= a);
        assert(events_of(a) + events_of(b) =~= events_of(a));
    } else {
        assert((a + b).drop_last() =~= a + b.drop_last());
        lemma_events_add(a, b.drop_last());
        match event_of(b.last()) {
            Some(e) => {
                assert(events_of(a) + events_of(b.drop_last()).push(e) =~= (events_of(a)
                    + events_of(b.drop_last())).push(e));
            },
            None => {},
        }
    }
}

/// How a stream is cut into chunks does not matter: two chunks one after the
/// other give the same events as both at once, and leave the same rest.
pub proof fn chunks_do_not_matter(rest: Seq<char>, a: Seq<char>, b: Seq<char>)
    ensures
        events_of(whole_lines(rest + a + b)) == events_of(whole_lines(rest + a)) + events_of(
            whole_lines(last_line(rest + a) + b),
        ),
        last_line(rest + a + b) == last_line(last_line(rest + a) + b),
{
    let s = rest + a;
    lemma_pieces_append(s, b, '\n', 0);
    let first = crate::text::pieces(s, '\n');
    let second = crate::text::pieces(first.last() + b, '\n');
    lemma_some_piece(first.last() + b, '\n', 0);
    assert(crate::text::pieces(s + b, '\n') =~= first.drop_last() + second);
    assert((first.drop_last() + second).drop_last() =~= first.drop_last() + second.drop_last());
    lemma_events_add(first.drop_last(), second.drop_last());
}

/// A name that a list of servers in a header can hold: it is not empty, has no
/// comma, and no white space at either end.
pub open spec fn fits_a_header(name: Seq<char>) -> bool {
    &&& name.len() > 0
    &&& !name.contains(',')
    &&& crate::text::trimmed(name) == name
}

proof fn lemma_no_comma(s: Seq<char>)
    requires
        !s.contains(','),
    ensures
        crate::text::pieces(s, ',') == seq![s],
{
    crate::text::lemma_place_of_char(s, ',', 0);
    let i = crate::text::place_of_char(s, ',', 0);
    if i < s.len() {
        assert(s.contains(s[i]));
    }
    assert(s.subrange(0, s.len() as int) =~= s);
}

proof fn lemma_two_pieces(a: Seq<char>, b: Seq<char>)
    requires
        !a.contains(','),
        !b.contains(','),
    ensures
        crate::text::pieces(a + ","@ + b, ',') == seq![a, b],
{
    reveal_strlit(",");
    let s = a + ","@ + b;
    crate::text::lemma_place_of_char(s, ',', 0);
    let n = a.len() as int;
    assert(s[n] == ',');
    let i = crate::text::place_of_char(s, ',', 0);
    assert(i == n) by {
        if i < n {
            assert(a.contains(a[i]));
            assert(s[i] == a[i]);
        }
    }
    assert(s.subrange(0, n) =~= a);
    assert(s.subrange(n + 1, s.len() as int) =~= b);
    assert(b.subrange(0, b.len() as int) =~= b);
    lemma_shift(s, b, ',', n + 1, 0);
    lemma_no_comma(b);
    assert(crate::text::pieces(s, ',') =~= seq![a] + seq![b]);
}

proof fn lemma_split_joined(parts: Seq<Seq<char>>)
    requires
        parts.len() > 0,
        forall|i: int| 0 <= i < parts.len() ==> !(#[trigger] parts[i]).contains(','),
    ensures
        crate::text::pieces(crate::text::joined(parts, ","@), ',') == parts,
    decreases parts.len(),
{
    if parts.len() == 1 {
        lemma_no_comma(parts[0]);
        assert(parts =~= seq![parts[0]]);
    } else {
        let before = parts.drop_last();
        assert forall|i: int| 0 <= i < before.len() implies !(#[trigger] before[i]).contains(
            ',',
        ) by {
            assert(before[i] == parts[i]);
        }
        lemma_split_joined(before);
        let j = crate::text::joined(before, ","@);
        let more = ","@ + parts.last();
        lemma_pieces_append(j, more, ',', 0);
        assert(before.last() == parts[parts.len() - 2]);
        assert(before.last() + more =~= before.last() + ","@ + parts.last());
        lemma_two_pieces(before.last(), parts.last());
        assert(j + more =~= j + ","@ + parts.last());
        assert(before.drop_last() + seq![before.last(), parts.last()] =~= parts);
    }
}

proof fn lemma_names_in(parts: Seq<Seq<char>>)
    requires
        forall|i: int| 0 <= i < parts.len() ==> fits_a_header(#[trigger] parts[i]),
    ensures
        crate::transport::http::names_in(parts) == parts,
    decreases parts.len(),
{
    if parts.len() > 0 {
        let before = parts.drop_last();
        assert forall|i: int| 0 <= i < before.len() implies fits_a_header(
            #[trigger] before[i],
        ) by {
            assert(before[i] == parts[i]);
        }
        lemma_names_in(before);
        assert(fits_a_header(parts[parts.len() - 1]));
        assert(before.push(parts.last()) =~= parts);
    }
}

/// The hub reads from the servers header the servers that the bridge asks for.
pub proof fn servers_survive_the_header(servers: Seq<Seq<char>>)
    requires
        servers.len() > 0,
        forall|i: int| 0 <= i < servers.len() ==> fits_a_header(#[trigger] servers[i]),
    ensures
        crate::transport::http::names_in(
            crate::text::pieces(crate::text::joined(servers, ","@), ','),
        ) == servers,
{
    assert forall|i: int| 0 <= i < servers.len() implies !(#[trigger] servers[i]).contains(
        ',',
    ) by {
        assert(fits_a_header(servers[i]));
    }
    lemma_split_joined(servers);
    lemma_names_in(servers);
}

/// A variable that the process environment provides is not replaced by one of
/// the profile.
pub proof fn forwarded_env_wins(
    base: Texts,
    overrides: Seq<(Seq<char>, OverrideView)>,
    process_env: Texts,
    key: Seq<char>,
)
    requires
        base.dom().contains(key),
    ensures
        with_profile_env(base, overrides, process_env).dom().contains(key),
        with_profile_env(base, overrides, process_env)[key] == base[key],
    decreases overrides.len(),
{
    if overrides.len() > 0 {
        forwarded_env_wins(base, overrides.drop_last(), process_env, key);
    }
}

/// Servers that are given win over those of the profile.
pub proof fn given_servers_win(given: Seq<Seq<char>>, profile: Option<Seq<Seq<char>>>)
    requires
        given.len() > 0,
    ensures
        bridge_servers(given, profile) == given,
{
}

/// A server that the profile excludes is not asked for, unless it is given; and
/// the list of servers is not empty, so that it does not stand for all.
pub proof fn excluded_servers_are_not_asked_for(
    prof: crate::config::ProfileView,
    active: Seq<Seq<char>>,
    name: Seq<char>,
)
    requires
        prof.excluded.contains(name),
        !crate::config::leaves_nothing(prof, active),
    ensures
        ({
            let asked = bridge_servers(
                Seq::empty(),
                Some(crate::config::profile_servers(prof, active)),
            );
            !asked.contains(name) && asked.len() > 0
        }),
{
    let f = crate::config::not_excluded(prof.excluded);
    crate::picked::lemma_picked(prof.included, f);
    crate::picked::lemma_picked(active, f);
}

/// The bridge forwards exactly the variables of the process environment that a
/// server refers to or that are to be forwarded, as they are.
pub proof fn bridge_forwards_what_servers_refer_to(
    servers: Seq<(Seq<char>, ServerView)>,
    forward: Seq<Seq<char>>,
    process_env: Texts,
    i: int,
    key: Seq<char>,
)
    ensures
        process_env.dom().contains(key) && 0 <= i < servers.len()
            && crate::pool::env_key::refers_to(servers[i].1, key) ==> base_env(
            servers,
            forward,
            process_env,
        ).dom().contains(key),
        process_env.dom().contains(key) && forward.contains(key) ==> base_env(
            servers,
            forward,
            process_env,
        ).dom().contains(key),
        base_env(servers, forward, process_env).dom().contains(key) ==> process_env.dom().contains(
            key,
        ) && base_env(servers, forward, process_env)[key] == process_env[key] && (
        forward.contains(key) || exists|j: int|
            0 <= j < servers.len() && crate::pool::env_key::refers_to(
                (#[trigger] servers[j]).1,
                key,
            )),
{
    if 0 <= i < servers.len() && crate::pool::env_key::refers_to(servers[i].1, key) {
        assert(some_server_refers(servers, key));
    }
}

/// A variable that the process environment does not provide is taken from the
/// first server of the profile that has it, filled in from the process
/// environment; no other variables are added.
pub proof fn profile_provides_what_is_missing(
    base: Texts,
    overrides: Seq<(Seq<char>, OverrideView)>,
    process_env: Texts,
    key: Seq<char>,
    i: int,
)
    requires
        !base.dom().contains(key),
        0 <= i <= overrides.len(),
        forall|j: int|
            0 <= j < i ==> !((#[trigger] overrides[j]).1.env is Some
                && overrides[j].1.env->0.dom().contains(key)),
        i < overrides.len() ==> overrides[i].1.env is Some
            && overrides[i].1.env->0.dom().contains(key),
    ensures
        with_profile_env(base, overrides, process_env).dom().contains(key) == (i
            < overrides.len()),
        i < overrides.len() ==> with_profile_env(base, overrides, process_env)[key]
            == crate::expand::expansion(
            overrides[i].1.env->0[key],
            crate::config::var_marks(),
            crate::pool::no_texts(),
            process_env,
        ),
    decreases overrides.len(),
{
    if overrides.len() > 0 {
        let rest = overrides.drop_last();
        assert(overrides.last() == overrides[overrides.len() - 1]);
        assert forall|j: int| 0 <= j < rest.len() implies #[trigger] rest[j] == overrides[j] by {}
        if i >= rest.len() {
            profile_provides_what_is_missing(base, rest, process_env, key, rest.len() as int);
        } else {
            profile_provides_what_is_missing(base, rest, process_env, key, i);
        }
    }
}

/// A message names its content, the session, the overrides and the servers,
/// each if there is one, and nothing else.
pub proof fn message_headers_say_who_asks(
    session: Option<Seq<char>>,
    env_header: Option<Seq<char>>,
    servers_header: Option<Seq<char>>,
    value: Seq<char>,
)
    ensures
        ({
            let h = message_headers(session, env_header, servers_header);
            &&& h.contains(("content-type"@, "application/json"@))
            &&& h.contains(("accept"@, "application/json, text/event-stream"@))
            &&& h.contains(("mcp-session-id"@, value)) == (session == Some(value))
            &&& h.contains(("x-mcp-env"@, value)) == (env_header == Some(value))
            &&& h.contains(("x-mcp-servers"@, value)) == (servers_header == Some(value))
        }),
{
    reveal_strlit("content-type");
    reveal_strlit("accept");
    reveal_strlit("mcp-session-id");
    reveal_strlit("x-mcp-env");
    reveal_strlit("x-mcp-servers");
    assert("content-type"@.len() == 12 && "accept"@.len() == 6 && "mcp-session-id"@.len() == 14
        && "x-mcp-env"@.len() == 9 && "x-mcp-servers"@.len() == 13);
    let h = message_headers(session, env_header, servers_header);
    assert(h[0] == ("content-type"@, "application/json"@));
    assert(h[1] == ("accept"@, "application/json, text/event-stream"@));
    let a = seq![
        ("content-type"@, "application/json"@),
        ("accept"@, "application/json, text/event-stream"@),
    ];
    if session is Some {
        assert(h[2] == ("mcp-session-id"@, session->0));
    }
    let b: int = if session is Some {
        3
    } else {
        2
    };
    if env_header is Some {
        assert(h[b] == ("x-mcp-env"@, env_header->0));
    }
    let c: int = if env_header is Some {
        b + 1
    } else {
        b
    };
    if servers_header is Some {
        assert(h[c] == ("x-mcp-servers"@, servers_header->0));
    }
    assert(h.len() == (if servers_header is Some {
        c + 1
    } else {
        c
    }));
    assert forall|k: int| 0 <= k < h.len() implies (#[trigger] h[k]).0 == (if k == 0 {
        "content-type"@
    } else if k == 1 {
        "accept"@
    } else if k < b {
        "mcp-session-id"@
    } else if k < c {
        "x-mcp-env"@
    } else {
        "x-mcp-servers"@
    }) by {}
}

/// A data line carries what stands behind `data: `, without white space around
/// it; a line without `data: ` at its beginning carries nothing.
pub proof fn data_lines_carry_their_data(
    left: Seq<char>,
    gap: Seq<char>,
    data: Seq<char>,
    right: Seq<char>,
)
    requires
        forall|i: int| 0 <= i < left.len() ==> crate::text::is_space(#[trigger] left[i]),
        forall|i: int| 0 <= i < gap.len() ==> crate::text::is_space(#[trigger] gap[i]),
        forall|i: int| 0 <= i < right.len() ==> crate::text::is_space(#[trigger] right[i]),
        data.len() > 0,
        !crate::text::is_space(data[0]),
        !crate::text::is_space(data[data.len() - 1]),
    ensures
        data_of(left + ("data: "@ + gap + data) + right) == Some(data),
        !crate::text::begins(data, "data: "@) ==> data_of(left + data + right) is None,
{
    reveal_strlit("data: ");
    let l = "data: "@ + gap + data;
    assert(l[0] == 'd');
    assert(l[l.len() - 1] == data[data.len() - 1]);
    crate::text::trimming_takes_only_white_space(left, l, right);
    let n = "data: "@.len() as int;
    assert(l.subrange(0, n) =~= "data: "@);
    let none = Seq::<char>::empty();
    assert(l.subrange(n, l.len() as int) =~= gap + data + none);
    crate::text::trimming_takes_only_white_space(gap, data, none);
    crate::text::trimming_takes_only_white_space(left, data, right);
}

/// A message is forwarded as it is, unless it is progress.
pub proof fn only_progress_is_not_forwarded(line: Seq<char>, data: Seq<char>)
    requires
        data_of(line) == Some(data),
    ensures
        event_of(line) matches Some(EventView::Forward(d)) ==> d == data,
        event_of(line) is Some,
        !(event_of(line)->0 is Forward) == (match crate::json::parsed_json(
            vstd::utf8::encode_utf8(data),
        ) {
            Some(v) => crate::json::member_of(v, "_progress"@) is Some,
            None => false,
        }),
{
}

/// Progress is read as what it says.
pub proof fn progress_is_read_as_it_says(
    m: Map<Seq<char>, crate::json::JsonView>,
    server: Seq<char>,
    tools: int,
    error: Seq<char>,
)
    requires
        m.dom().contains("server"@),
        m["server"@] == crate::json::JsonView::Str(server),
        m.dom().contains("status"@),
    ensures
        m["status"@] == crate::json::JsonView::Str("ready"@) && m.dom().contains("tools"@)
            && m["tools"@] == crate::json::JsonView::Int(tools) && 0 <= tools <= u64::MAX
            ==> progress_of(crate::json::JsonView::Object(m)) == (EventView::BackendReady {
            server,
            tools,
        }),
        m["status"@] == crate::json::JsonView::Str("failed"@) && m.dom().contains("error"@)
            && m["error"@] == crate::json::JsonView::Str(error) ==> progress_of(
            crate::json::JsonView::Object(m),
        ) == (EventView::BackendFailed { server, error }),
{
    reveal_strlit("ready");
    reveal_strlit("failed");
    assert("ready"@.len() != "failed"@.len());
}

/// A plan asks for its servers and carries its overrides in headers that the hub
/// reads back; what there is none of is not sent.
pub proof fn plan_headers_carry_the_plan(plan: BridgePlan, servers: Seq<Seq<char>>, env: Texts)
    requires
        plan_is(plan, servers, env),
    ensures
        plan.env@ == env,
        crate::text::texts(plan.servers@) == servers,
        plan.env_header is Some == (env != crate::pool::no_texts()),
        plan.env_header matches Some(h) ==> crate::transport::header_env(h@) == env,
        plan.servers_header is Some == (servers.len() > 0),
        plan.servers_header matches Some(h) ==> ((forall|i: int|
            0 <= i < servers.len() ==> fits_a_header(#[trigger] servers[i]))
            ==> crate::transport::http::names_in(crate::text::pieces(h@, ',')) == servers),
{
    if servers.len() > 0 && (forall|i: int|
        0 <= i < servers.len() ==> fits_a_header(#[trigger] servers[i])) {
        servers_survive_the_header(servers);
    }
}

/// Without servers given, the bridge asks for those of the profile, if there is
/// one.
pub proof fn profile_servers_are_asked_for(profile: Option<Seq<Seq<char>>>)
    ensures
        bridge_servers(Seq::empty(), profile) == (match profile {
            Some(p) => p,
            None => Seq::empty(),
        }),
{
}

/// Without a profile the bridge asks for what is given, or for all, and forwards
/// what the servers refer to.
pub proof fn bridge_without_a_profile(
    r: Planned,
    config: &Config,
    profiles: ProfilesFile,
    given: Seq<Seq<char>>,
    forward: Seq<Seq<char>>,
    process_env: Texts,
    limit: nat,
    key: Seq<char>,
    i: int,
)
    requires
        bridge_is_planned(
            r,
            Some(config),
            None,
            profiles,
            given,
            forward,
            process_env,
            limit,
        ),
    ensures
        r matches Planned::Ready(p) && {
            &&& crate::text::texts(p.servers@) == given
            &&& p.env@.dom().contains(key) ==> process_env.dom().contains(key) && p.env@[key]
                == process_env[key]
            &&& forward.contains(key) && process_env.dom().contains(key)
                ==> p.env@.dom().contains(key)
            &&& 0 <= i < config.servers.pairs().len() && crate::pool::env_key::refers_to(
                config.servers.pairs()[i].1,
                key,
            ) && process_env.dom().contains(key) ==> p.env@.dom().contains(key)
        },
{
    bridge_forwards_what_servers_refer_to(
        config.servers.pairs(),
        forward,
        process_env,
        i,
        key,
    );
}

/// With a profile the bridge asks for what is given, else for what the profile
/// picks, and adds what the profile sets; it fails if there is no such profile,
/// or if the profile picks nothing and nothing is given.
pub proof fn bridge_with_a_profile(
    r: Planned,
    config: Option<&Config>,
    profile: Seq<char>,
    profiles: ProfilesFile,
    given: Seq<Seq<char>>,
    forward: Seq<Seq<char>>,
    process_env: Texts,
    limit: nat,
)
    requires
        bridge_is_planned(
            r,
            config,
            Some(profile),
            profiles,
            given,
            forward,
            process_env,
            limit,
        ),
    ensures
        r is UnknownProfile == !profiles@.dom().contains(profile),
        r matches Planned::Ready(p) ==> {
            let prof = profiles@[profile];
            &&& given.len() > 0 ==> crate::text::texts(p.servers@) == given
            &&& given.len() == 0 && prof.included.len() > 0 ==> forall|name: Seq<char>| #[trigger]
                crate::text::texts(p.servers@).contains(name) == (prof.included.contains(name)
                    && !prof.excluded.contains(name))
            &&& given.len() == 0 && prof.included.len() == 0 && prof.excluded.len() == 0
                ==> crate::text::texts(p.servers@).len() == 0
        },
        r is NoServers == (profiles@.dom().contains(profile) && given.len() == 0
            && crate::config::leaves_nothing(
            profiles@[profile],
            active_in(config, process_env),
        )),
{
    if r is Ready {
        let prof = profiles@[profile];
        let active = active_in(config, process_env);
        assert forall|name: Seq<char>|
            prof.included.len() > 0 implies #[trigger] crate::config::profile_servers(
            prof,
            active,
        ).contains(name) == (prof.included.contains(name) && !prof.excluded.contains(name)) by {
            crate::config::profile_picks_what_it_says(prof, active, name);
        }
    }
}

/// The session that a successful response names is kept for the messages that
/// follow; a failed one changes nothing and is answered by an error of the
/// request.
pub proof fn session_is_kept_from_the_response(
    r: Reaction,
    before: Option<Seq<char>>,
    after: Option<Seq<char>>,
    id: crate::json::JsonView,
    success: bool,
    status: Seq<char>,
    named: Option<Seq<char>>,
    content_type: Option<Seq<char>>,
    session: Seq<char>,
)
    requires
        head_is_taken(
            r,
            before,
            after,
            id,
            success,
            status,
            named is Some,
            named,
            content_type,
        ),
    ensures
        success && named is Some ==> after == named && message_headers(
            after,
            None,
            None,
        ).contains(("mcp-session-id"@, named->0)),
        !success || named is None ==> after == before,
        r is Failed == !success,
        r matches Reaction::Failed(line) ==> exists|v: crate::json::JsonView|
            line@ == #[trigger] crate::json::compact_text(v) && crate::json::member_of(v, "id"@)
                == Some(id) && crate::json::member_of(v, "error"@) is Some,
{
    if named is Some {
        message_headers_say_who_asks(named, None, None, named->0);
    }
    if !success {
        crate::jsonrpc::error_says_code_and_message(id, -32000, "hub returned HTTP "@ + status);
        let v = crate::jsonrpc::err_json(id, -32000, "hub returned HTTP "@ + status);
        assert(r->Failed_0@ == crate::json::compact_text(v));
    }
}

/// A profile whose variables hold no references is always filled in.
pub proof fn plain_profiles_are_filled_in(
    base: Texts,
    overrides: Seq<(Seq<char>, OverrideView)>,
    process_env: Texts,
    limit: nat,
)
    requires
        forall|i: int, k: Seq<char>|
            #![trigger overrides[i], overrides[i].1.env->0.dom().contains(k)]
            0 <= i < overrides.len() && overrides[i].1.env is Some
                && overrides[i].1.env->0.dom().contains(k) ==> !crate::text::contains_pat(
                overrides[i].1.env->0[k],
                "${"@,
            ),
    ensures
        profile_env_settles(base, overrides, process_env, limit),
    decreases overrides.len(),
{
    if overrides.len() > 0 {
        let rest = overrides.drop_last();
        assert forall|i: int, k: Seq<char>|
            #![trigger rest[i], rest[i].1.env->0.dom().contains(k)]
            0 <= i < rest.len() && rest[i].1.env is Some && rest[i].1.env->0.dom().contains(
                k,
            ) implies !crate::text::contains_pat(rest[i].1.env->0[k], "${"@) by {
            assert(overrides[i] == rest[i]);
            assert(overrides[i].1.env->0.dom().contains(k));
        }
        plain_profiles_are_filled_in(base, rest, process_env, limit);
        let last = overrides[overrides.len() - 1];
        assert(last == overrides.last());
        if last.1.env is Some {
            let e = last.1.env->0;
            assert forall|k: Seq<char>| #[trigger]
                e.dom().contains(k) implies crate::expand::settles_by(
                e[k],
                crate::config::var_marks(),
                crate::pool::no_texts(),
                process_env,
                limit,
            ) by {
                assert(overrides[overrides.len() - 1].1.env->0.dom().contains(k));
                crate::config::text_without_references_is_left(
                    e[k],
                    crate::pool::no_texts(),
                    process_env,
                );
                crate::expand::lemma_settled_stays(
                    e[k],
                    crate::config::var_marks(),
                    crate::pool::no_texts(),
                    process_env,
                    0,
                    limit,
                );
            }
        }
    }
}

/// A variable of a profile that the process environment provides need not be
/// filled in; one that it does not provide must be, from the process
/// environment.
pub proof fn only_missing_variables_are_filled_in(
    env: Texts,
    extra: Texts,
    process_env: Texts,
    limit: nat,
    name: Seq<char>,
    key: Seq<char>,
)
    requires
        extra.dom().contains(key),
        !env.dom().contains(key),
        extra[key] == "${"@ + name + "}"@,
        !name.contains('}'),
        process_env.dom().contains(name),
    ensures
        process_env[name] == "${"@ + name + "}"@ ==> !missing_settle(
            env,
            extra,
            process_env,
            limit,
        ),
        missing_settle(env.insert(key, extra[key]), extra, process_env, limit) == missing_settle(
            env,
            extra.remove(key),
            process_env,
            limit,
        ),
{
    if process_env[name] == "${"@ + name + "}"@ {
        crate::config::a_variable_that_holds_itself_is_not_resolved(
            name,
            crate::pool::no_texts(),
            process_env,
            limit,
        );
    }
    let a = env.insert(key, extra[key]);
    let b = extra.remove(key);
    if missing_settle(a, extra, process_env, limit) {
        assert forall|k: Seq<char>| #[trigger] b.dom().contains(k) && !env.dom().contains(
            k,
        ) implies crate::expand::settles_by(
            b[k],
            crate::config::var_marks(),
            crate::pool::no_texts(),
            process_env,
            limit,
        ) by {
            assert(extra.dom().contains(k));
        }
    }
    if missing_settle(env, b, process_env, limit) {
        assert forall|k: Seq<char>| #[trigger] extra.dom().contains(k) && !a.dom().contains(
            k,
        ) implies crate::expand::settles_by(
            extra[k],
            crate::config::var_marks(),
            crate::pool::no_texts(),
            process_env,
            limit,
        ) by {
            assert(b.dom().contains(k));
        }
    }
}

/// Of the names, those that the process environment provides are collected, with
/// its values.
pub proof fn collected_names_are_provided(
    names: Seq<Seq<char>>,
    process_env: Texts,
    key: Seq<char>,
)
    ensures
        collected(names, process_env).dom().contains(key) == (names.contains(key)
            && process_env.dom().contains(key)),
        collected(names, process_env).dom().contains(key) ==> collected(names, process_env)[key]
            == process_env[key],
{
}

/// The events of lines come in order; a line without data gives none.
pub proof fn each_line_gives_its_event(a: Seq<Seq<char>>, b: Seq<Seq<char>>, line: Seq<char>)
    ensures
        events_of(a + b) == events_of(a) + events_of(b),
        event_of(line) is Some ==> events_of(seq![line]) == seq![event_of(line)->0],
        event_of(line) is None ==> events_of(seq![line]).len() == 0,
        data_of(line) is None == (event_of(line) is None),
{
    lemma_events_add(a, b);
    reveal_with_fuel(events_of, 2);
    assert(seq![line].drop_last() =~= Seq::empty());
    if event_of(line) is Some {
        assert(events_of(seq![line]) =~= seq![event_of(line)->0]);
    }
}

/// The hub says of a stream that it is one, and of a single response that it is
/// JSON.
pub proof fn responses_say_their_kind(
    head: crate::transport::http::ReplyHead,
    session: Seq<char>,
)
    ensures
        crate::transport::http::head_is(
            head,
            crate::transport::http::Answer::Stream,
            session,
        ) ==> head.status == 200 && head.has_body && header_pairs(head.headers@).contains(
            ("content-type"@, "text/event-stream"@),
        ),
        crate::transport::http::head_is(
            head,
            crate::transport::http::Answer::Single,
            session,
        ) ==> head.status == 200 && head.has_body && header_pairs(head.headers@).contains(
            ("content-type"@, "application/json"@),
        ),
{
    let pairs = header_pairs(head.headers@);
    if crate::transport::http::head_is(head, crate::transport::http::Answer::Stream, session) {
        assert(pairs[0] == ("content-type"@, "text/event-stream"@));
    }
    if crate::transport::http::head_is(head, crate::transport::http::Answer::Single, session) {
        assert(pairs[0] == ("content-type"@, "application/json"@));
    }
}

/// What the hub reports of a list that broke off reaches the client as an error
/// of its request.
pub proof fn broken_list_is_an_error_of_its_request(id: crate::json::JsonView, e: Seq<char>)
    ensures
        crate::json::member_of(crate::transport::http::broken_list(id, e), "id"@) == Some(id),
        crate::json::member_of(crate::transport::http::broken_list(id, e), "error"@) matches Some(x)
            && crate::json::member_of(x, "code"@) == Some(crate::json::JsonView::Int(-32000)),
{
    crate::jsonrpc::error_says_code_and_message(id, -32000, "internal error: "@ + e);
}

} // verus!
