//! The commands of the program and the choices that their arguments make.

use vstd::prelude::*;

use crate::text::{cat, chars_of, copy_opt, find_char, same_text, string_of};

verus! {

/// The arguments of the program.
pub struct Cli {
    /// The path of `servers.json`.
    pub config: String,
    /// The profile to use; it overrides the saved one.
    pub profile: Option<String>,
    pub command: Cmd,
}

/// A command.
#[allow(inconsistent_fields)]
pub enum Cmd {
    /// Starts the aggregator.
    Serve { transport: String, port: u16 },
    /// Connects a client on standard input and output to a running hub.
    Bridge {
        url: String,
        profile: Option<String>,
        servers: Vec<String>,
        forward_env: Vec<String>,
    },
    /// Manages servers.
    Server { action: ServerCmd },
    /// Manages profiles.
    Profile { action: ProfileCmd },
    /// Installs the proxy in clients.
    Clients,
    /// Checks the health of a running hub.
    Health { port: u16 },
    /// Creates a starter config.
    Init,
    /// Validates the config and tests each server.
    Test { servers: Vec<String> },
    /// Generates a Dockerfile and an example of the environment.
    Generate { target: String, dir: String },
}

/// What to do with the servers of the config.
#[allow(inconsistent_fields)]
pub enum ServerCmd {
    List,
    Add {
        name: String,
        command: String,
        args: Vec<String>,
        env: Vec<(String, String)>,
        npm: Option<String>,
        pip: Option<String>,
        runtime: Option<String>,
    },
    Remove { name: String },
    Edit {
        name: String,
        command: Option<String>,
        args: Option<Vec<String>>,
        env: Vec<(String, String)>,
        remove_env: Vec<String>,
        runtime: Option<String>,
    },
}

/// What to do with the profiles.
#[allow(inconsistent_fields)]
pub enum ProfileCmd {
    List,
    Add { name: String, description: Option<String> },
    Remove { name: String },
    /// Overrides fields of a server in a profile.
    Override {
        profile: String,
        server: String,
        command: Option<String>,
        args: Option<Vec<String>>,
        env: Vec<(String, String)>,
        runtime: Option<String>,
    },
    Unset { profile: String, server: String },
    Switch { name: Option<String> },
}

/// The first of two choices that is made.
pub open spec fn first_of<T>(a: Option<T>, b: Option<T>) -> Option<T> {
    match a {
        Some(x) => Some(x),
        None => b,
    }
}

/// The profile in effect: the one given on the command line or by the
/// environment wins over the one `saved`.
pub fn active_profile(given: &Option<String>, saved: &Option<String>) -> (r: Option<String>)
    ensures
        crate::text::opt_text(r) == first_of(
            crate::text::opt_text(*given),
            crate::text::opt_text(*saved),
        ),
{
    if given.is_some() {
        copy_opt(given)
    } else {
        copy_opt(saved)
    }
}

/// How the hub talks to its clients.
#[derive(Debug, Clone, Copy, PartialEq, Eq, Structural)]
pub enum Transport {
    Http,
    Stdio,
}

/// The transport named `name`: anything but `stdio` is HTTP.
pub fn transport_named(name: &str) -> (r: Transport)
    ensures
        r == (if name@ == "stdio"@ {
            Transport::Stdio
        } else {
            Transport::Http
        }),
{
    if same_text(name, "stdio") {
        Transport::Stdio
    } else {
        Transport::Http
    }
}

/// What an assignment in an argument stands for: what stands before its first
/// equals sign, and what stands behind it.
pub open spec fn assignment(s: Seq<char>) -> Option<(Seq<char>, Seq<char>)> {
    let i = crate::text::place_of_char(s, '=', 0);
    if i < s.len() {
        Some((s.subrange(0, i), s.subrange(i + 1, s.len() as int)))
    } else {
        None
    }
}

/// Reads an assignment `KEY=VALUE`.
pub fn read_assignment(s: &str) -> (r: Result<(String, String), String>)
    ensures
        r is Ok == assignment(s@) is Some,
        r matches Ok(p) ==> assignment(s@) == Some((p.0@, p.1@)),
        r matches Err(e) ==> e@ == "expected KEY=VALUE, got '"@ + s@ + "'"@,
{
    let cs = chars_of(s);
    let n: usize = cs.len();
    let i = find_char(&cs, '=', 0);
    if i < n {
        Ok((string_of(&cs, 0, i), string_of(&cs, i + 1, n)))
    } else {
        let mut e = cat("expected KEY=VALUE, got '", s);
        e.append("'");
        Err(e)
    }
}

// ---------------------------------------------------------------------------
// Laws
// ---------------------------------------------------------------------------

/// `KEY=value` assigns the value to the key: it is cut at the first `=`. A text
/// without `=` assigns nothing.
pub proof fn assignment_is_cut_at_the_first_sign(key: Seq<char>, value: Seq<char>)
    requires
        !key.contains('='),
    ensures
        assignment(key + "="@ + value) == Some((key, value)),
        assignment(key) is None,
{
    reveal_strlit("=");
    let s = key + "="@ + value;
    let n = key.len() as int;
    crate::text::lemma_place_of_char(s, '=', 0);
    crate::text::lemma_place_of_char(key, '=', 0);
    let i = crate::text::place_of_char(s, '=', 0);
    assert(s[n] == '=');
    if i < n {
        assert(key[i] == s[i]);
        assert(key.contains(key[i]));
    }
    let j = crate::text::place_of_char(key, '=', 0);
    if j < n {
        assert(key.contains(key[j]));
    }
    assert(s.subrange(0, n) =~= key);
    assert(s.subrange(n + 1, s.len() as int) =~= value);
}

/// The first of two values wins, if there is one.
pub proof fn the_first_value_wins<T>(a: T, b: Option<T>)
    ensures
        first_of(Some(a), b) == Some(a),
        first_of(None, b) == b,
{
}

} // verus!
