//! Managing profiles and their overrides.

use vstd::prelude::*;

use crate::cli::ProfileCmd;
use crate::commands::{Report, assign_all, cat3, one_line, push_line, runtime_named};
use crate::config::{
    OverrideView, ProfileConfig, ProfileView, ProfilesFile, ServerOverride, UserConfig,
    list_profiles, write_active_profile,
};
use crate::names::{Duplicate, NameMap};
use crate::text::{cat, copy_opt, copy_texts, pad_right, same_text};

verus! {

/// The line for a profile in the list.
pub open spec fn profile_line(
    name: Seq<char>,
    description: Option<Seq<char>>,
    active: Option<Seq<char>>,
) -> Seq<char> {
    "  "@ + crate::text::padded_right(name, 16) + " "@ + crate::config::or_base(
        description,
        "(no description)"@,
    ) + (if active == Some(name) {
        " ◀ active"@
    } else {
        ""@
    })
}

/// The line for an override in the list.
pub open spec fn override_line(server: Seq<char>) -> Seq<char> {
    "    └─ "@ + server + " (override)"@
}

/// The lines for the overrides of a profile.
pub open spec fn override_lines(p: ProfileConfig) -> Seq<Seq<char>> {
    Seq::new(p.servers.pairs().len(), |i: int| override_line(p.servers.pairs()[i].0))
}

/// The lines for the first `n` profiles.
pub open spec fn profile_lines(pf: ProfilesFile, active: Option<Seq<char>>, n: int) -> Seq<Seq<char>>
    decreases n,
{
    if n <= 0 {
        Seq::empty()
    } else {
        let p = pf.profiles.pairs()[n - 1];
        profile_lines(pf, active, n - 1).push(profile_line(p.0, p.1.description, active))
            + override_lines(pf.profiles.values()[n - 1])
    }
}

/// The lines of the list of profiles.
pub open spec fn listing(pf: ProfilesFile, active: Option<Seq<char>>) -> Seq<Seq<char>> {
    let n = pf.profiles.pairs().len() as int;
    if n == 0 {
        seq!["no profiles defined"@]
    } else {
        profile_lines(pf, active, n).push(""@).push(
            match active {
                Some(a) => "active profile: "@ + a,
                None => "no active profile (using all servers)"@,
            },
        )
    }
}

fn push_overrides(out: &mut Vec<String>, p: &ProfileConfig)
    ensures
        crate::text::texts(final(out)@) == crate::text::texts(old(out)@) + override_lines(*p),
{
    let n: usize = p.servers.len();
    let ghost before = crate::text::texts(out@);
    let ghost want = override_lines(*p);
    let mut i: usize = 0;
    assert(before + want.take(0) =~= before);
    while i < n
        invariant
            n == p.servers.pairs().len(),
            want == override_lines(*p),
            i <= n,
            crate::text::texts(out@) == before + want.take(i as int),
        decreases n - i,
    {
        push_line(out, cat3("    └─ ", p.servers.name_at(i).as_str(), " (override)"));
        assert(before + want.take(i + 1) =~= (before + want.take(i as int)).push(want[i as int]));
        i = i + 1;
    }
    assert(want.take(n as int) =~= want);
}

/// The list of profiles, with a mark at the active one.
pub fn list(pf: &ProfilesFile, active: &Option<String>) -> (r: Vec<String>)
    ensures
        crate::text::texts(r@) == listing(*pf, crate::text::opt_text(*active)),
{
    let profiles = list_profiles(pf);
    let n: usize = pf.profiles.len();
    if n == 0 {
        return one_line("no profiles defined".to_owned());
    }
    let ghost chosen = crate::text::opt_text(*active);
    let mut out: Vec<String> = Vec::new();
    let mut i: usize = 0;
    assert(crate::text::texts(out@) =~= profile_lines(*pf, chosen, 0));
    while i < n
        invariant
            n == pf.profiles.pairs().len(),
            n == pf.profiles.values().len(),
            profiles@.len() == n,
            chosen == crate::text::opt_text(*active),
            i <= n,
            forall|k: int|
                0 <= k < n ==> (#[trigger] profiles@[k]).0@ == pf.profiles.pairs()[k].0
                    && crate::text::opt_slice(profiles@[k].1)
                    == pf.profiles.pairs()[k].1.description,
            crate::text::texts(out@) == profile_lines(*pf, chosen, i as int),
        decreases n - i,
    {
        let (name, description) = profiles[i];
        let padded = pad_right(name, 16);
        let mut line = cat3("  ", padded.as_str(), " ");
        match description {
            Some(d) => {
                line.append(d);
            },
            None => {
                line.append("(no description)");
            },
        }
        let marked: bool = match active {
            Some(a) => same_text(a.as_str(), name),
            None => false,
        };
        if marked {
            line.append(" ◀ active");
        } else {
            line.append("");
        }
        push_line(&mut out, line);
        push_overrides(&mut out, pf.profiles.value_at(i));
        i = i + 1;
    }
    push_line(&mut out, "".to_owned());
    match active {
        Some(a) => {
            push_line(&mut out, cat("active profile: ", a.as_str()));
        },
        None => {
            push_line(&mut out, "no active profile (using all servers)".to_owned());
        },
    }
    out
}

/// What is said of a profile that is not there.
pub open spec fn not_found(name: Seq<char>) -> Seq<char> {
    "profile '"@ + name + "' not found"@
}

/// A profile with nothing but a description.
pub open spec fn new_profile(description: Option<Seq<char>>) -> ProfileView {
    ProfileView { description, ..crate::config::empty_profile() }
}

/// A profile with an override for `server`.
pub open spec fn with_override(p: ProfileView, server: Seq<char>, o: OverrideView) -> ProfileView {
    ProfileView { servers: p.servers.insert(server, o), ..p }
}

/// A profile without an override for `server`.
pub open spec fn without_override(p: ProfileView, server: Seq<char>) -> ProfileView {
    ProfileView { servers: p.servers.remove(server), ..p }
}

/// Adds an empty profile; the name must be new.
pub fn add_profile(pf: &mut ProfilesFile, name: &str, description: &Option<String>) -> (r: Result<
    String,
    String,
>)
    ensures
        old(pf)@.dom().contains(name@) ==> r is Err && r->Err_0@ == "profile '"@ + name@
            + "' already exists"@ && *final(pf) == *old(pf),
        !old(pf)@.dom().contains(name@) ==> r is Ok && r->Ok_0@ == "✅ created profile '"@ + name@
            + "'"@ && final(pf).profiles.pairs() == crate::names::bound(
            old(pf).profiles.pairs(),
            name@,
            new_profile(crate::text::opt_text(*description)),
        ),
{
    if pf.profiles.contains(name) {
        return Err(cat3("profile '", name, "' already exists"));
    }
    let mut p = ProfileConfig::default();
    p.description = copy_opt(description);
    pf.profiles.insert(name.to_owned(), p);
    Ok(cat3("✅ created profile '", name, "'"))
}

/// Removes a profile; if it was active, no profile is active then.
pub fn remove_profile(pf: &mut ProfilesFile, settings: &mut UserConfig, name: &str) -> (r: Result<
    String,
    String,
>)
    ensures
        !old(pf)@.dom().contains(name@) ==> r is Err && r->Err_0@ == not_found(name@)
            && *final(pf) == *old(pf) && *final(settings) == *old(settings),
        old(pf)@.dom().contains(name@) ==> r is Ok && r->Ok_0@ == "✅ removed profile '"@ + name@
            + "'"@ && final(pf).profiles.pairs() == crate::names::unbound(
            old(pf).profiles.pairs(),
            name@,
        ) && final(settings)@ == (if old(settings)@ == Some(name@) {
            None
        } else {
            old(settings)@
        }),
{
    if !pf.profiles.contains(name) {
        return Err(cat3("profile '", name, "' not found"));
    }
    let _gone = pf.profiles.remove(name);
    let active: bool = match &settings.default_profile {
        Some(a) => same_text(a.as_str(), name),
        None => false,
    };
    if active {
        write_active_profile(settings, None);
    }
    Ok(cat3("✅ removed profile '", name, "'"))
}

/// An override with more overridden: what is given replaces what was there, and
/// the variables of `env` are added.
pub open spec fn overridden(
    o: OverrideView,
    command: Option<Seq<char>>,
    args: Option<Seq<Seq<char>>>,
    env: Seq<(String, String)>,
    runtime: Option<Seq<char>>,
) -> OverrideView {
    OverrideView {
        command: crate::cli::first_of(command, o.command),
        args: crate::cli::first_of(args, o.args),
        env: if env.len() == 0 {
            o.env
        } else {
            Some(
                crate::commands::with_assignments(
                    crate::config::or_base(o.env, Map::empty()),
                    env,
                ),
            )
        },
        runtime: match runtime {
            Some(name) => Some(crate::commands::runtime_of(name)),
            None => o.runtime,
        },
        ..o
    }
}

/// The override of a server in a profile.
pub open spec fn override_in(p: ProfileView, server: Seq<char>) -> OverrideView {
    if p.servers.dom().contains(server) {
        p.servers[server]
    } else {
        crate::config::no_override()
    }
}

/// Overrides fields of a server in a profile.
pub fn set_override(
    pf: &mut ProfilesFile,
    profile: &str,
    server: &str,
    command: &Option<String>,
    args: &Option<Vec<String>>,
    env: &Vec<(String, String)>,
    runtime: &Option<String>,
) -> (r: Result<String, String>)
    ensures
        !old(pf)@.dom().contains(profile@) ==> r is Err && r->Err_0@ == not_found(profile@)
            && *final(pf) == *old(pf),
        old(pf)@.dom().contains(profile@) ==> r is Ok && r->Ok_0@ == "✅ set override for '"@
            + server@ + "' in profile '"@ + profile@ + "'"@ && final(pf).profiles.pairs()
            == crate::names::bound(
            old(pf).profiles.pairs(),
            profile@,
            with_override(
                old(pf)@[profile@],
                server@,
                overridden(
                    override_in(old(pf)@[profile@], server@),
                    crate::text::opt_text(*command),
                    crate::config::opt_texts(*args),
                    env@,
                    crate::text::opt_text(*runtime),
                ),
            ),
        ),
{
    let mut p = match pf.profiles.get(profile) {
        Some(p) => p.duplicate(),
        None => {
            return Err(cat3("profile '", profile, "' not found"));
        },
    };
    let mut o: ServerOverride = match p.servers.get(server) {
        Some(o) => o.duplicate(),
        None => ServerOverride::default(),
    };
    let ghost was = o@;
    if let Some(c) = command {
        o.command = Some(c.clone());
    }
    if let Some(a) = args {
        o.args = Some(copy_texts(a));
    }
    if env.len() > 0 {
        let mut vars: NameMap<String> = match o.env {
            Some(e) => e,
            None => NameMap::new(),
        };
        assign_all(&mut vars, env);
        o.env = Some(vars);
    }
    if let Some(rt) = runtime {
        o.runtime = Some(runtime_named(rt.as_str()));
    }
    assert(o@ =~= overridden(
        was,
        crate::text::opt_text(*command),
        crate::config::opt_texts(*args),
        env@,
        crate::text::opt_text(*runtime),
    ));
    p.servers.insert(server.to_owned(), o);
    pf.profiles.insert(profile.to_owned(), p);
    let mut line = cat3("✅ set override for '", server, "' in profile '");
    line.append(profile);
    line.append("'");
    Ok(line)
}

/// Takes the override of a server out of a profile.
pub fn unset_override(pf: &mut ProfilesFile, profile: &str, server: &str) -> (r: Result<
    String,
    String,
>)
    ensures
        !old(pf)@.dom().contains(profile@) ==> r is Err && r->Err_0@ == not_found(profile@)
            && *final(pf) == *old(pf),
        old(pf)@.dom().contains(profile@) && !old(pf)@[profile@].servers.dom().contains(server@)
            ==> r is Err && r->Err_0@ == "no override for '"@ + server@ + "' in profile '"@
            + profile@ + "'"@ && *final(pf) == *old(pf),
        old(pf)@.dom().contains(profile@) && old(pf)@[profile@].servers.dom().contains(server@)
            ==> r is Ok && r->Ok_0@ == "✅ removed override for '"@ + server@ + "' from profile '"@
            + profile@ + "'"@ && final(pf).profiles.pairs() == crate::names::bound(
            old(pf).profiles.pairs(),
            profile@,
            without_override(old(pf)@[profile@], server@),
        ),
{
    let mut p = match pf.profiles.get(profile) {
        Some(p) => p.duplicate(),
        None => {
            return Err(cat3("profile '", profile, "' not found"));
        },
    };
    if p.servers.remove(server).is_none() {
        let mut e = cat3("no override for '", server, "' in profile '");
        e.append(profile);
        e.append("'");
        return Err(e);
    }
    pf.profiles.insert(profile.to_owned(), p);
    let mut line = cat3("✅ removed override for '", server, "' from profile '");
    line.append(profile);
    line.append("'");
    Ok(line)
}

/// Makes the profile `name` active, which must be there, or none.
pub fn switch_profile(pf: &ProfilesFile, settings: &mut UserConfig, name: &Option<String>) -> (r:
    Result<String, String>)
    ensures
        *name matches Some(n) ==> if pf@.dom().contains(n@) {
            r is Ok && r->Ok_0@ == "✅ switched to profile: "@ + n@ && final(settings)@ == Some(
                n@,
            )
        } else {
            r is Err && r->Err_0@ == not_found(n@) && *final(settings) == *old(settings)
        },
        *name is None ==> r is Ok && r->Ok_0@ == "✅ cleared active profile (using all servers)"@
            && final(settings)@ is None,
{
    match name {
        Some(n) => {
            if !pf.profiles.contains(n.as_str()) {
                return Err(cat3("profile '", n.as_str(), "' not found"));
            }
            write_active_profile(settings, Some(n.as_str()));
            Ok(cat("✅ switched to profile: ", n.as_str()))
        },
        None => {
            write_active_profile(settings, None);
            Ok("✅ cleared active profile (using all servers)".to_owned())
        },
    }
}

fn done(r: Result<String, String>, changed: bool, settings_changed: bool) -> (d: Result<
    Report,
    String,
>)
    ensures
        r is Ok == d is Ok,
        r matches Err(e) ==> d->Err_0@ == e@,
        r matches Ok(line) ==> crate::text::texts(d->Ok_0.lines@) == seq![line@] && d->Ok_0.changed
            == changed && d->Ok_0.settings_changed == settings_changed,
{
    match r {
        Ok(line) => Ok(Report { lines: one_line(line), changed, settings_changed }),
        Err(e) => Err(e),
    }
}

/// What a command says, and what it leaves behind.
pub struct Outcome {
    pub lines: Seq<Seq<char>>,
    pub profiles: Seq<(Seq<char>, ProfileView)>,
    pub settings: Option<Seq<char>>,
    pub changed: bool,
    pub settings_changed: bool,
}

/// The outcome of a command that only shows `lines`.
pub open spec fn shown(
    lines: Seq<Seq<char>>,
    pf: ProfilesFile,
    settings: Option<Seq<char>>,
) -> Outcome {
    Outcome {
        lines,
        profiles: pf.profiles.pairs(),
        settings,
        changed: false,
        settings_changed: false,
    }
}

/// The outcome of `action`, or why nothing is done.
pub open spec fn outcome(
    pf: ProfilesFile,
    settings: Option<Seq<char>>,
    action: ProfileCmd,
) -> Result<Outcome, Seq<char>> {
    match action {
        ProfileCmd::List => Ok(shown(listing(pf, settings), pf, settings)),
        ProfileCmd::Add { name, description } => if pf@.dom().contains(name@) {
            Err("profile '"@ + name@ + "' already exists"@)
        } else {
            Ok(
                Outcome {
                    profiles: crate::names::bound(
                        pf.profiles.pairs(),
                        name@,
                        new_profile(crate::text::opt_text(description)),
                    ),
                    changed: true,
                    ..shown(seq!["✅ created profile '"@ + name@ + "'"@], pf, settings)
                },
            )
        },
        ProfileCmd::Remove { name } => if !pf@.dom().contains(name@) {
            Err(not_found(name@))
        } else {
            Ok(
                Outcome {
                    lines: seq!["✅ removed profile '"@ + name@ + "'"@],
                    profiles: crate::names::unbound(pf.profiles.pairs(), name@),
                    settings: if settings == Some(name@) {
                        None
                    } else {
                        settings
                    },
                    changed: true,
                    settings_changed: settings == Some(name@),
                },
            )
        },
        ProfileCmd::Override { profile, server, command, args, env, runtime } => if !pf@.dom().contains(
            profile@,
        ) {
            Err(not_found(profile@))
        } else {
            let p = pf@[profile@];
            Ok(
                Outcome {
                    profiles: crate::names::bound(
                        pf.profiles.pairs(),
                        profile@,
                        with_override(
                            p,
                            server@,
                            overridden(
                                override_in(p, server@),
                                crate::text::opt_text(command),
                                crate::config::opt_texts(args),
                                env@,
                                crate::text::opt_text(runtime),
                            ),
                        ),
                    ),
                    changed: true,
                    ..shown(
                        seq![
                            "✅ set override for '"@ + server@ + "' in profile '"@ + profile@
                                + "'"@,
                        ],
                        pf,
                        settings,
                    )
                },
            )
        },
        ProfileCmd::Unset { profile, server } => if !pf@.dom().contains(profile@) {
            Err(not_found(profile@))
        } else if !pf@[profile@].servers.dom().contains(server@) {
            Err("no override for '"@ + server@ + "' in profile '"@ + profile@ + "'"@)
        } else {
            Ok(
                Outcome {
                    profiles: crate::names::bound(
                        pf.profiles.pairs(),
                        profile@,
                        without_override(pf@[profile@], server@),
                    ),
                    changed: true,
                    ..shown(
                        seq![
                            "✅ removed override for '"@ + server@ + "' from profile '"@
                                + profile@ + "'"@,
                        ],
                        pf,
                        settings,
                    )
                },
            )
        },
        ProfileCmd::Switch { name: Some(n) } => if !pf@.dom().contains(n@) {
            Err(not_found(n@))
        } else {
            Ok(
                Outcome {
                    settings: Some(n@),
                    settings_changed: true,
                    ..shown(seq!["✅ switched to profile: "@ + n@], pf, settings)
                },
            )
        },
        ProfileCmd::Switch { name: None } => Ok(
            Outcome {
                settings: None,
                settings_changed: true,
                ..shown(
                    seq!["✅ cleared active profile (using all servers)"@],
                    pf,
                    settings,
                )
            },
        ),
    }
}

/// Does `action`: the lines to show and what has changed, or why nothing was
/// done.
pub fn run(pf: &mut ProfilesFile, settings: &mut UserConfig, action: &ProfileCmd) -> (r: Result<
    Report,
    String,
>)
    ensures
        match outcome(*old(pf), old(settings)@, *action) {
            Ok(o) => {
                &&& r is Ok
                &&& crate::text::texts(r->Ok_0.lines@) == o.lines
                &&& r->Ok_0.changed == o.changed
                &&& r->Ok_0.settings_changed == o.settings_changed
                &&& final(pf).profiles.pairs() == o.profiles
                &&& final(settings)@ == o.settings
            },
            Err(e) => {
                &&& r is Err
                &&& r->Err_0@ == e
                &&& *final(pf) == *old(pf)
                &&& *final(settings) == *old(settings)
            },
        },
{
    match action {
        ProfileCmd::List => Ok(
            Report {
                lines: list(pf, &settings.default_profile),
                changed: false,
                settings_changed: false,
            },
        ),
        ProfileCmd::Add { name, description } => done(
            add_profile(pf, name.as_str(), description),
            true,
            false,
        ),
        ProfileCmd::Remove { name } => {
            let active: bool = match &settings.default_profile {
                Some(a) => same_text(a.as_str(), name.as_str()),
                None => false,
            };
            done(remove_profile(pf, settings, name.as_str()), true, active)
        },
        ProfileCmd::Override { profile, server, command, args, env, runtime } => done(
            set_override(pf, profile.as_str(), server.as_str(), command, args, env, runtime),
            true,
            false,
        ),
        ProfileCmd::Unset { profile, server } => done(
            unset_override(pf, profile.as_str(), server.as_str()),
            true,
            false,
        ),
        ProfileCmd::Switch { name } => done(switch_profile(pf, settings, name), false, true),
    }
}

// ---------------------------------------------------------------------------
// Laws
// ---------------------------------------------------------------------------

/// Taking an override away undoes setting it, where there was none.
pub proof fn unsetting_undoes_setting(p: ProfileView, server: Seq<char>, o: OverrideView)
    requires
        !p.servers.dom().contains(server),
    ensures
        without_override(with_override(p, server, o), server) == p,
{
    assert(without_override(with_override(p, server, o), server).servers =~= p.servers);
}

/// Setting an override with nothing given changes nothing.
pub proof fn overriding_nothing_changes_nothing(o: OverrideView)
    ensures
        overridden(o, None, None, Seq::empty(), None) == o,
{
    assert(overridden(o, None, None, Seq::empty(), None) =~= o);
}

/// The active profile is one that is there: no command makes a profile active
/// that is not, and a profile that is removed is active no more.
pub proof fn active_profile_exists(
    pf: ProfilesFile,
    settings: Option<Seq<char>>,
    action: ProfileCmd,
)
    requires
        crate::names::distinct_names(pf.profiles.pairs()),
        settings matches Some(a) ==> pf@.dom().contains(a),
        outcome(pf, settings, action) is Ok,
    ensures
        outcome(pf, settings, action)->Ok_0.settings matches Some(a) ==> crate::names::map_of(
            outcome(pf, settings, action)->Ok_0.profiles,
        ).dom().contains(a),
{
    let profiles = pf.profiles.pairs();
    match action {
        ProfileCmd::Add { name, description } => {
            crate::names::lemma_bound(
                profiles,
                name@,
                new_profile(crate::text::opt_text(description)),
            );
        },
        ProfileCmd::Remove { name } => {
            crate::names::lemma_unbound(profiles, name@);
        },
        ProfileCmd::Override { profile, server, command, args, env, runtime } => {
            let p = pf@[profile@];
            crate::names::lemma_bound(
                profiles,
                profile@,
                with_override(
                    p,
                    server@,
                    overridden(
                        override_in(p, server@),
                        crate::text::opt_text(command),
                        crate::config::opt_texts(args),
                        env@,
                        crate::text::opt_text(runtime),
                    ),
                ),
            );
        },
        ProfileCmd::Unset { profile, server } => {
            crate::names::lemma_bound(
                profiles,
                profile@,
                without_override(pf@[profile@], server@),
            );
        },
        _ => {},
    }
}

/// Adding a profile adds an empty one of that name; there must be none.
pub proof fn added_profile_is_empty(
    pf: ProfilesFile,
    settings: Option<Seq<char>>,
    name: String,
    description: Option<String>,
)
    requires
        crate::names::distinct_names(pf.profiles.pairs()),
    ensures
        ({
            let r = outcome(pf, settings, ProfileCmd::Add { name, description });
            &&& r is Err == pf@.dom().contains(name@)
            &&& r is Ok ==> {
                let m = crate::names::map_of(r->Ok_0.profiles);
                &&& m.dom() == crate::names::map_of(pf.profiles.pairs()).dom().insert(name@)
                &&& m[name@].description == crate::text::opt_text(description)
                &&& m[name@].included.len() == 0
                &&& m[name@].excluded.len() == 0
                &&& m[name@].servers == Map::<Seq<char>, OverrideView>::empty()
                &&& r->Ok_0.settings == settings
                &&& r->Ok_0.changed
                &&& !r->Ok_0.settings_changed
            }
        }),
{
    crate::names::lemma_bound(
        pf.profiles.pairs(),
        name@,
        new_profile(crate::text::opt_text(description)),
    );
}

/// Removing a profile takes out that one, which must be there, and ends its
/// being in effect.
pub proof fn removed_profile_is_gone(
    pf: ProfilesFile,
    settings: Option<Seq<char>>,
    name: String,
)
    requires
        crate::names::distinct_names(pf.profiles.pairs()),
    ensures
        ({
            let r = outcome(pf, settings, ProfileCmd::Remove { name });
            &&& r is Err == !pf@.dom().contains(name@)
            &&& r is Ok ==> {
                &&& crate::names::map_of(r->Ok_0.profiles) == crate::names::map_of(
                    pf.profiles.pairs(),
                ).remove(name@)
                &&& r->Ok_0.changed
                &&& settings == Some(name@) ==> r->Ok_0.settings is None
                    && r->Ok_0.settings_changed
                &&& settings != Some(name@) ==> r->Ok_0.settings == settings
                    && !r->Ok_0.settings_changed
            }
        }),
{
    crate::names::lemma_unbound(pf.profiles.pairs(), name@);
}

/// Switching puts an existing profile in effect, or none, and changes no
/// profile.
pub proof fn switching_changes_only_the_settings(
    pf: ProfilesFile,
    settings: Option<Seq<char>>,
    name: Option<String>,
)
    ensures
        ({
            let r = outcome(pf, settings, ProfileCmd::Switch { name });
            &&& r is Err == (name is Some && !pf@.dom().contains(name->0@))
            &&& r is Ok ==> {
                &&& r->Ok_0.settings == crate::text::opt_text(name)
                &&& r->Ok_0.settings_changed
                &&& r->Ok_0.profiles == pf.profiles.pairs()
                &&& !r->Ok_0.changed
            }
        }),
{
}

/// Listing changes nothing, and fails never.
pub proof fn listing_changes_nothing(pf: ProfilesFile, settings: Option<Seq<char>>)
    ensures
        outcome(pf, settings, ProfileCmd::List) matches Ok(r) && r.profiles == pf.profiles.pairs()
            && r.settings == settings && !r.changed && !r.settings_changed,
{
}

/// Overriding sets the fields that are given, keeps those that are not, and
/// touches no other server and no other profile.
pub proof fn override_sets_what_is_given(
    o: OverrideView,
    command: Option<Seq<char>>,
    args: Option<Seq<Seq<char>>>,
    env: Seq<(String, String)>,
    runtime: Option<Seq<char>>,
    k: int,
)
    ensures
        ({
            let r = overridden(o, command, args, env, runtime);
            &&& command is Some ==> r.command == command
            &&& command is None ==> r.command == o.command
            &&& args is Some ==> r.args == args
            &&& args is None ==> r.args == o.args
            &&& runtime is None ==> r.runtime == o.runtime
            &&& runtime is Some ==> r.runtime is Some && (r.runtime->0
                == crate::config::Runtime::Local) == (runtime->0 == "local"@)
            &&& env.len() == 0 ==> r.env == o.env
            &&& 0 <= k < env.len() && (forall|i: int|
                k < i < env.len() ==> (#[trigger] env[i]).0@ != env[k].0@) ==> r.env is Some
                && r.env->0.dom().contains(env[k].0@) && r.env->0[env[k].0@] == env[k].1@
            &&& r.install == o.install
            &&& r.env_toggle == o.env_toggle
        }),
{
    if 0 <= k < env.len() && (forall|i: int|
        k < i < env.len() ==> (#[trigger] env[i]).0@ != env[k].0@) {
        crate::commands::last_assignment_wins(
            crate::config::or_base(o.env, Map::empty()),
            env,
            k + 1,
            env[k].0@,
        );
    }
}

/// Setting or taking out the override of one server leaves those of the others.
pub proof fn overrides_of_others_stay(
    p: ProfileView,
    server: Seq<char>,
    other: Seq<char>,
    o: OverrideView,
)
    requires
        other != server,
    ensures
        with_override(p, server, o).servers[server] == o,
        with_override(p, server, o).servers.dom().contains(server),
        override_in(with_override(p, server, o), server) == o,
        override_in(with_override(p, server, o), other) == override_in(p, other),
        !without_override(p, server).servers.dom().contains(server),
        override_in(without_override(p, server), other) == override_in(p, other),
        with_override(p, server, o).included == p.included,
        with_override(p, server, o).excluded == p.excluded,
        with_override(p, server, o).description == p.description,
        without_override(p, server).included == p.included,
        without_override(p, server).excluded == p.excluded,
{
}

/// The override of a server is set in the profile that is named, which must be
/// there; the other profiles stay.
pub proof fn override_goes_into_its_profile(
    pf: ProfilesFile,
    settings: Option<Seq<char>>,
    profile: String,
    server: String,
    command: Option<String>,
    args: Option<Vec<String>>,
    env: Vec<(String, String)>,
    runtime: Option<String>,
)
    requires
        crate::names::distinct_names(pf.profiles.pairs()),
    ensures
        ({
            let r = outcome(
                pf,
                settings,
                ProfileCmd::Override { profile, server, command, args, env, runtime },
            );
            &&& r is Err == !pf@.dom().contains(profile@)
            &&& r is Ok ==> {
                let m = crate::names::map_of(r->Ok_0.profiles);
                let old_map = crate::names::map_of(pf.profiles.pairs());
                &&& m.dom() == old_map.dom().insert(profile@)
                &&& forall|other: Seq<char>|
                    other != profile@ && old_map.dom().contains(other) ==> #[trigger] m[other]
                        == old_map[other]
                &&& m[profile@].servers.dom().contains(server@)
                &&& command is Some ==> m[profile@].servers[server@].command
                    == crate::text::opt_text(command)
                &&& r->Ok_0.settings == settings
                &&& r->Ok_0.changed
            }
        }),
{
    if pf@.dom().contains(profile@) {
        let p = pf@[profile@];
        crate::names::lemma_bound(
            pf.profiles.pairs(),
            profile@,
            with_override(
                p,
                server@,
                overridden(
                    override_in(p, server@),
                    crate::text::opt_text(command),
                    crate::config::opt_texts(args),
                    env@,
                    crate::text::opt_text(runtime),
                ),
            ),
        );
    }
}

/// The override of a server is taken out of the profile that is named; both must
/// be there.
pub proof fn unset_takes_the_override_out(
    pf: ProfilesFile,
    settings: Option<Seq<char>>,
    profile: String,
    server: String,
)
    requires
        crate::names::distinct_names(pf.profiles.pairs()),
    ensures
        ({
            let r = outcome(pf, settings, ProfileCmd::Unset { profile, server });
            &&& r is Ok == (pf@.dom().contains(profile@) && pf@[profile@].servers.dom().contains(
                server@,
            ))
            &&& r is Ok ==> {
                let m = crate::names::map_of(r->Ok_0.profiles);
                &&& !m[profile@].servers.dom().contains(server@)
                &&& m[profile@].included == pf@[profile@].included
                &&& r->Ok_0.settings == settings
                &&& r->Ok_0.changed
            }
        }),
{
    crate::names::lemma_bound(
        pf.profiles.pairs(),
        profile@,
        without_override(pf@[profile@], server@),
    );
}

/// Each profile has a line that begins with its name and says whether it is in
/// effect.
pub proof fn each_profile_has_a_line(
    pf: ProfilesFile,
    active: Option<Seq<char>>,
    n: int,
    i: int,
)
    requires
        0 <= i < n <= pf.profiles.pairs().len(),
    ensures
        exists|k: int|
            0 <= k < profile_lines(pf, active, n).len() && crate::text::begins(
                #[trigger] profile_lines(pf, active, n)[k],
                "  "@ + pf.profiles.pairs()[i].0,
            ),
    decreases n,
{
    let p = pf.profiles.pairs()[n - 1];
    let before = profile_lines(pf, active, n - 1);
    let line = profile_line(p.0, p.1.description, active);
    let all = profile_lines(pf, active, n);
    if i == n - 1 {
        assert(all[before.len() as int] == line);
        let pad = crate::text::padded_right(p.0, 16);
        crate::text::padding_fills_to_the_width(p.0, ' ', 16, 0);
        assert(pad.subrange(0, p.0.len() as int) == p.0);
        let m = ("  "@ + p.0).len() as int;
        assert(line.subrange(0, m) =~= "  "@ + pad.subrange(0, p.0.len() as int));
    } else {
        each_profile_has_a_line(pf, active, n - 1, i);
        let k = choose|k: int|
            0 <= k < before.len() && crate::text::begins(
                #[trigger] before[k],
                "  "@ + pf.profiles.pairs()[i].0,
            );
        assert(all[k] == before[k]);
    }
}

/// The line of a profile says that it is active if and only if it is.
pub proof fn active_profile_is_marked(
    name: Seq<char>,
    description: Option<Seq<char>>,
    active: Option<Seq<char>>,
)
    ensures
        active == Some(name) ==> profile_line(name, description, active) == profile_line(
            name,
            description,
            None,
        ) + " ◀ active"@,
        active != Some(name) ==> profile_line(name, description, active) == profile_line(
            name,
            description,
            None,
        ),
        description is Some ==> crate::text::contains_pat(
            profile_line(name, description, active),
            description->0,
        ),
{
    reveal_strlit("");
    let d = crate::config::or_base(description, "(no description)"@);
    let a = "  "@ + crate::text::padded_right(name, 16) + " "@;
    let b = if active == Some(name) {
        " ◀ active"@
    } else {
        ""@
    };
    assert(profile_line(name, description, None) =~= a + d);
    assert(profile_line(name, description, active) =~= a + d + b);
    crate::text::lemma_part_stands(a, d, b);
    assert(a + d + ""@ =~= a + d);
}

/// Without profiles the list says so; else it ends with what is in effect.
pub proof fn listing_ends_with_what_is_in_effect(pf: ProfilesFile, active: Option<Seq<char>>)
    ensures
        pf.profiles.pairs().len() == 0 ==> listing(pf, active) == seq!["no profiles defined"@],
        pf.profiles.pairs().len() > 0 && active is Some ==> listing(pf, active).last()
            == "active profile: "@ + active->0,
        pf.profiles.pairs().len() > 0 && active is None ==> listing(pf, active).last()
            == "no active profile (using all servers)"@,
        pf.profiles.pairs().len() > 0 ==> listing(pf, active).len() == profile_lines(
            pf,
            active,
            pf.profiles.pairs().len() as int,
        ).len() + 2,
{
}

/// Each server that a profile overrides has a line with its name.
pub proof fn each_override_has_a_line(p: ProfileConfig, i: int)
    requires
        0 <= i < p.servers.pairs().len(),
    ensures
        override_lines(p).len() == p.servers.pairs().len(),
        crate::text::contains_pat(
            override_lines(p)[i],
            p.servers.pairs()[i].0 + " (override)"@,
        ),
{
    let a = "    └─ "@;
    let b = p.servers.pairs()[i].0 + " (override)"@;
    let none = Seq::<char>::empty();
    assert(a + p.servers.pairs()[i].0 + " (override)"@ =~= a + b + none);
    crate::text::lemma_part_stands(a, b, none);
}

/// The message about a profile that is not there names it.
pub proof fn missing_profile_is_named(name: Seq<char>)
    ensures
        crate::text::contains_pat(not_found(name), "'"@ + name + "' not found"@),
{
    reveal_strlit("profile '");
    reveal_strlit("'");
    let none = Seq::<char>::empty();
    let p = "profile '"@;
    let h = p.subrange(0, p.len() - 1);
    let pat = "'"@ + name + "' not found"@;
    assert(p =~= h + "'"@);
    assert(not_found(name) =~= h + pat + none);
    crate::text::lemma_part_stands(h, pat, none);
}

} // verus!
