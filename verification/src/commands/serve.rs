//! Starting the aggregator: what is said of the config, and when a change of
//! the config file leads to a reload.

use vstd::prelude::*;

use crate::commands::push_line;
use crate::config::{Config, ProfilesFile};
use crate::text::{cat, same_text};

verus! {

/// How long, in milliseconds, to wait for the next event while a change is
/// pending.
pub const POLL_MILLIS: u64 = 500;

/// How long, in milliseconds, the file must have been quiet before the config
/// is reloaded.
pub const QUIET_MILLIS: u64 = 400;

/// The line for the config at `path`, `created` if it was not there before.
pub fn init_line(path: &str, created: bool) -> (r: String)
    ensures
        r@ == (if created {
            "created "@ + path@
        } else {
            "config already exists: "@ + path@
        }),
{
    if created {
        cat("created ", path)
    } else {
        cat("config already exists: ", path)
    }
}

/// The lines for a config that had to be created before serving.
pub fn starter_lines(path: &str) -> (r: Vec<String>)
    ensures
        crate::text::texts(r@) == seq![
            "created starter config: "@ + path@,
            "edit it to add your MCP servers, then restart."@,
            ""@,
        ],
{
    let mut out: Vec<String> = Vec::new();
    push_line(&mut out, cat("created starter config: ", path));
    push_line(&mut out, "edit it to add your MCP servers, then restart.".to_owned());
    push_line(&mut out, "".to_owned());
    assert(crate::text::texts(out@) =~= seq![
        "created starter config: "@ + path@,
        "edit it to add your MCP servers, then restart."@,
        ""@,
    ]);
    out
}

/// The config that is served: as it is, or under the profile that is named.
pub open spec fn config_is_served(
    r: Result<Config, String>,
    config: Config,
    profile: Option<Seq<char>>,
    profiles: ProfilesFile,
) -> bool {
    match profile {
        None => r == Ok::<Config, String>(config),
        Some(name) => if profiles@.dom().contains(name) {
            r matches Ok(c) && c@.servers == crate::config::under_profile(
                config@.servers,
                profiles@[name],
            ) && c.custom_tools.pairs() == config.custom_tools.pairs()
        } else {
            r matches Err(e) && e@ == "unknown local profile: "@ + name
        },
    }
}

/// The config to serve: under the given profile, or as it is if none is given.
/// The profile has to be there.
pub fn served_config(config: Config, profile: Option<&str>, profiles: &ProfilesFile) -> (r: Result<
    Config,
    String,
>)
    ensures
        config_is_served(r, config, crate::text::opt_slice(profile), *profiles),
{
    match profile {
        None => Ok(config),
        Some(name) => match profiles.profiles.get(name) {
            Some(p) => Ok(config.with_profile(p)),
            None => Err(cat("unknown local profile: ", name)),
        },
    }
}

/// Whether an event on the file system says that the config file has changed:
/// it modified or created a file with the name of the config file. A config
/// path without a file name matches every file.
pub open spec fn concerns_config(
    writes: bool,
    config_name: Option<Seq<char>>,
    names: Seq<Option<String>>,
) -> bool {
    writes && (config_name matches Some(n) ==> exists|i: int|
        0 <= i < names.len() && crate::text::opt_text(#[trigger] names[i]) == Some(n))
}

/// Whether an event concerns the config file. `writes` says whether it
/// modified or created files, `names` are the names of the files.
pub fn is_relevant(writes: bool, config_name: Option<&str>, names: &Vec<Option<String>>) -> (r:
    bool)
    ensures
        r == concerns_config(writes, crate::text::opt_slice(config_name), names@),
{
    if !writes {
        return false;
    }
    match config_name {
        None => true,
        Some(wanted) => {
            let mut i: usize = 0;
            while i < names.len()
                invariant
                    writes,
                    config_name == Some(wanted),
                    i <= names@.len(),
                    forall|k: int|
                        0 <= k < i ==> crate::text::opt_text(#[trigger] names@[k]) != Some(
                            wanted@,
                        ),
                decreases names@.len() - i,
            {
                let hit: bool = match &names[i] {
                    Some(n) => same_text(n.as_str(), wanted),
                    None => false,
                };
                if hit {
                    assert(crate::text::opt_text(names@[i as int]) == Some(wanted@));
                    return true;
                }
                i = i + 1;
            }
            false
        },
    }
}

/// What wakes the watcher up.
#[derive(Debug, Clone, Copy, PartialEq, Eq, Structural)]
pub enum Wake {
    /// The config file has changed.
    Changed,
    /// Something else, or nothing within the time to wait.
    Other,
}

/// Waits until the config file has been quiet for a while. Editors often save
/// in several steps, and each step starts the wait anew.
#[derive(Debug, Clone, Copy, PartialEq, Eq, Structural)]
pub struct Debounce {
    /// When the file last changed, in milliseconds, if that has not led to a
    /// reload yet.
    pub pending: Option<u64>,
}

impl Debounce {
    /// No change is pending.
    pub fn new() -> (r: Self)
        ensures
            r.pending is None,
    {
        Debounce { pending: None }
    }

    /// How long to wait for the next event; `None` for as long as it takes.
    pub fn wait_millis(&self) -> (r: Option<u64>)
        ensures
            r == (if self.pending is Some {
                Some(POLL_MILLIS)
            } else {
                None
            }),
    {
        if self.pending.is_some() {
            Some(POLL_MILLIS)
        } else {
            None
        }
    }

    /// Takes note of `wake` at the time `now`: whether to reload the config.
    pub fn step(&mut self, wake: Wake, now: u64) -> (r: bool)
        ensures
            r == reloads(old(self).pending, wake, now as int),
            final(self).pending == next_pending(old(self).pending, wake, now),
    {
        match wake {
            Wake::Changed => {
                self.pending = Some(now);
                false
            },
            Wake::Other => match self.pending {
                Some(t) => {
                    let quiet: u64 = if now >= t {
                        now - t
                    } else {
                        0
                    };
                    if quiet >= QUIET_MILLIS {
                        self.pending = None;
                        true
                    } else {
                        false
                    }
                },
                None => false,
            },
        }
    }
}

/// Whether the config is reloaded: a change is pending and the file has been
/// quiet long enough.
pub open spec fn reloads(pending: Option<u64>, wake: Wake, now: int) -> bool {
    wake is Other && (pending matches Some(t) && now - t >= QUIET_MILLIS)
}

/// The change that is pending afterwards.
pub open spec fn next_pending(pending: Option<u64>, wake: Wake, now: u64) -> Option<u64> {
    if wake is Changed {
        Some(now)
    } else if reloads(pending, wake, now as int) {
        None
    } else {
        pending
    }
}

// ---------------------------------------------------------------------------
// Laws
// ---------------------------------------------------------------------------

/// What is pending after the watcher was woken up by each of `wakes` in turn.
pub open spec fn pending_after(pending: Option<u64>, wakes: Seq<(Wake, u64)>) -> Option<u64>
    decreases wakes.len(),
{
    if wakes.len() == 0 {
        pending
    } else {
        next_pending(
            pending_after(pending, wakes.drop_last()),
            wakes.last().0,
            wakes.last().1,
        )
    }
}

/// How often the config is reloaded while the watcher is woken up by each of
/// `wakes` in turn.
pub open spec fn reload_count(pending: Option<u64>, wakes: Seq<(Wake, u64)>) -> int
    decreases wakes.len(),
{
    if wakes.len() == 0 {
        0
    } else {
        reload_count(pending, wakes.drop_last()) + (if reloads(
            pending_after(pending, wakes.drop_last()),
            wakes.last().0,
            wakes.last().1 as int,
        ) {
            1int
        } else {
            0
        })
    }
}

/// How often the config file changes among `wakes`.
pub open spec fn change_count(wakes: Seq<(Wake, u64)>) -> int
    decreases wakes.len(),
{
    if wakes.len() == 0 {
        0
    } else {
        change_count(wakes.drop_last()) + (if wakes.last().0 is Changed {
            1int
        } else {
            0
        })
    }
}

/// There is no reload without a change of the file, and at most one for each
/// change.
pub proof fn no_reload_without_a_change(wakes: Seq<(Wake, u64)>)
    ensures
        0 <= reload_count(None, wakes) + (if pending_after(None, wakes) is Some {
            1int
        } else {
            0
        }) <= change_count(wakes),
        reload_count(None, wakes) >= 0,
    decreases wakes.len(),
{
    if wakes.len() > 0 {
        no_reload_without_a_change(wakes.drop_last());
    }
}

/// A change is not forgotten: until the reload comes it stays pending, and the
/// first time that the watcher wakes up after the file was quiet long enough
/// it comes.
pub proof fn a_change_leads_to_a_reload(pending: u64, now: u64)
    ensures
        now - pending >= QUIET_MILLIS ==> reloads(Some(pending), Wake::Other, now as int),
        now - pending < QUIET_MILLIS ==> next_pending(Some(pending), Wake::Other, now) == Some(
            pending,
        ),
{
}

/// A save in several steps leads to no reload while it goes on: each step
/// starts the wait anew.
pub proof fn changes_put_the_reload_off(pending: Option<u64>, now: u64, later: u64)
    requires
        later - now < QUIET_MILLIS,
    ensures
        !reloads(pending, Wake::Changed, now as int),
        !reloads(next_pending(pending, Wake::Changed, now), Wake::Other, later as int),
{
}

/// A reload comes when nothing has changed for four tenths of a second since the
/// last change, and not before.
pub proof fn reload_waits_for_quiet(changed_at: u64, now: int, wake: Wake)
    ensures
        reloads(Some(changed_at), wake, now) == (wake is Other && now >= changed_at + 400),
        !reloads(None, wake, now),
{
}

/// A change of a file concerns the config if and only if something was written
/// and the file has the name of the config, or the config has none.
pub proof fn only_the_config_file_counts(
    config_name: Seq<char>,
    names: Seq<Option<String>>,
    writes: bool,
    i: int,
)
    ensures
        !writes ==> !concerns_config(writes, Some(config_name), names),
        concerns_config(writes, None, names) == writes,
        writes && 0 <= i < names.len() && names[i] is Some && names[i]->0@ == config_name
            ==> concerns_config(writes, Some(config_name), names),
        concerns_config(writes, Some(config_name), names) ==> exists|j: int|
            0 <= j < names.len() && (#[trigger] names[j]) is Some && names[j]->0@ == config_name,
{
    if concerns_config(writes, Some(config_name), names) {
        let j = choose|j: int|
            0 <= j < names.len() && crate::text::opt_text(#[trigger] names[j]) == Some(
                config_name,
            );
        assert(names[j] is Some);
    }
    if 0 <= i < names.len() && names[i] is Some && names[i]->0@ == config_name {
        assert(crate::text::opt_text(names[i]) == Some(config_name));
    }
}

/// Under a profile, a server of the config is served if and only if the profile
/// lets it run: with its own command, or with that of the profile.
pub proof fn profile_decides_what_is_served(
    r: Result<Config, String>,
    config: Config,
    profile: Seq<char>,
    profiles: ProfilesFile,
    name: Seq<char>,
)
    requires
        config_is_served(r, config, Some(profile), profiles),
        config@.servers.dom().contains(name),
    ensures
        r is Ok == profiles@.dom().contains(profile),
        r matches Ok(c) ==> {
            let p = profiles@[profile];
            &&& c@.servers.dom().contains(name) == ((p.included.len() == 0
                || p.included.contains(name)) && !p.excluded.contains(name))
            &&& c@.servers.dom().contains(name) && !p.servers.dom().contains(name)
                ==> c@.servers[name] == config@.servers[name]
            &&& c@.servers.dom().contains(name) && p.servers.dom().contains(name)
                && p.servers[name].command is Some ==> c@.servers[name].command
                == p.servers[name].command->0
        },
{
}

/// A profile changes no custom tool, and without a profile all is served as it
/// is.
pub proof fn custom_tools_are_served_as_they_are(
    r: Result<Config, String>,
    config: Config,
    profile: Option<Seq<char>>,
    profiles: ProfilesFile,
)
    requires
        config_is_served(r, config, profile, profiles),
    ensures
        r matches Ok(c) ==> c.custom_tools.pairs() == config.custom_tools.pairs(),
        profile is None ==> r == Ok::<Config, String>(config),
{
}

} // verus!
