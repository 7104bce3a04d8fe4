//! What the subcommands decide: the changes to the configuration and the lines
//! to show.

use vstd::prelude::*;

use crate::config::Runtime;
use crate::expand::Texts;
use crate::names::NameMap;
use crate::text::same_text;

pub mod clients;
pub mod health;
pub mod profile;
pub mod serve;
pub mod server;
pub mod test;

verus! {

/// What a command has done: the lines to show, and what has to be saved.
#[derive(Debug)]
pub struct Report {
    pub lines: Vec<String>,
    /// Whether the file that the command works on has changed.
    pub changed: bool,
    /// Whether the user settings have to be saved.
    pub settings_changed: bool,
}

/// `a`, then `b` and `c`.
pub(crate) fn cat3(a: &str, b: &str, c: &str) -> (r: String)
    ensures
        r@ == a@ + b@ + c@,
{
    let mut r = crate::text::cat(a, b);
    r.append(c);
    r
}

pub(crate) fn push_line(out: &mut Vec<String>, line: String)
    ensures
        crate::text::texts(final(out)@) == crate::text::texts(old(out)@).push(line@),
{
    let ghost before = out@;
    let ghost l = line@;
    out.push(line);
    assert(crate::text::texts(out@) =~= crate::text::texts(before).push(l));
}

pub(crate) fn one_line(line: String) -> (r: Vec<String>)
    ensures
        crate::text::texts(r@) == seq![line@],
{
    let mut r: Vec<String> = Vec::new();
    let ghost l = line@;
    r.push(line);
    assert(crate::text::texts(r@) =~= seq![l]);
    r
}

/// The runtime that an argument names: anything but `local` is Docker.
pub open spec fn runtime_of(name: Seq<char>) -> Runtime {
    if name == "local"@ {
        Runtime::Local
    } else {
        Runtime::Docker
    }
}

pub(crate) fn runtime_named(name: &str) -> (r: Runtime)
    ensures
        r == runtime_of(name@),
{
    if same_text(name, "local") {
        Runtime::Local
    } else {
        Runtime::Docker
    }
}

/// `base` with the assignments made, in order.
pub open spec fn with_assignments(base: Texts, s: Seq<(String, String)>) -> Texts
    decreases s.len(),
{
    if s.len() == 0 {
        base
    } else {
        with_assignments(base, s.drop_last()).insert(s.last().0@, s.last().1@)
    }
}

/// `base` without the names.
pub open spec fn without_names(base: Texts, s: Seq<String>) -> Texts
    decreases s.len(),
{
    if s.len() == 0 {
        base
    } else {
        without_names(base, s.drop_last()).remove(s.last()@)
    }
}

pub(crate) fn assign_all(env: &mut NameMap<String>, s: &Vec<(String, String)>)
    ensures
        final(env)@ == with_assignments(old(env)@, s@),
{
    let ghost before = env@;
    let mut i: usize = 0;
    assert(s@.take(0) =~= Seq::empty());
    while i < s.len()
        invariant
            i <= s@.len(),
            env@ == with_assignments(before, s@.take(i as int)),
        decreases s@.len() - i,
    {
        assert(s@.take(i + 1).drop_last() =~= s@.take(i as int));
        env.insert(s[i].0.clone(), s[i].1.clone());
        i = i + 1;
    }
    assert(s@.take(s@.len() as int) =~= s@);
}

pub(crate) fn remove_all(env: &mut NameMap<String>, s: &Vec<String>)
    ensures
        final(env)@ == without_names(old(env)@, s@),
{
    let ghost before = env@;
    let mut i: usize = 0;
    assert(s@.take(0) =~= Seq::empty());
    while i < s.len()
        invariant
            i <= s@.len(),
            env@ == without_names(before, s@.take(i as int)),
        decreases s@.len() - i,
    {
        assert(s@.take(i + 1).drop_last() =~= s@.take(i as int));
        let _gone = env.remove(s[i].as_str());
        i = i + 1;
    }
    assert(s@.take(s@.len() as int) =~= s@);
}

// ---------------------------------------------------------------------------
// Laws
// ---------------------------------------------------------------------------

/// The last of the values that are assigned to a variable is the one it has; a
/// variable to which none is assigned keeps its own.
pub proof fn last_assignment_wins(base: Texts, s: Seq<(String, String)>, k: int, key: Seq<char>)
    requires
        0 <= k <= s.len(),
        forall|i: int| k <= i < s.len() ==> (#[trigger] s[i]).0@ != key,
        k > 0 ==> s[k - 1].0@ == key,
    ensures
        k > 0 ==> with_assignments(base, s).dom().contains(key) && with_assignments(base, s)[key]
            == s[k - 1].1@,
        k == 0 ==> with_assignments(base, s).dom().contains(key) == base.dom().contains(key)
            && with_assignments(base, s)[key] == base[key],
    decreases s.len(),
{
    if s.len() > 0 {
        assert(s.last() == s[s.len() - 1]);
        if k < s.len() {
            let t = s.drop_last();
            assert forall|i: int| k <= i < t.len() implies (#[trigger] t[i]).0@ != key by {
                assert(t[i] == s[i]);
            }
            if k > 0 {
                assert(t[k - 1] == s[k - 1]);
            }
            last_assignment_wins(base, t, k, key);
        }
    }
}

/// Exactly the variables that are named are taken out; the others keep their
/// values.
pub proof fn only_named_variables_are_taken_out(base: Texts, s: Seq<String>, key: Seq<char>)
    ensures
        without_names(base, s).dom().contains(key) == (base.dom().contains(key) && forall|i: int|
            0 <= i < s.len() ==> (#[trigger] s[i])@ != key),
        without_names(base, s).dom().contains(key) ==> without_names(base, s)[key] == base[key],
    decreases s.len(),
{
    if s.len() > 0 {
        let t = s.drop_last();
        only_named_variables_are_taken_out(base, t, key);
        assert(s[s.len() - 1] == s.last());
        if forall|i: int| 0 <= i < t.len() ==> (#[trigger] t[i])@ != key {
            assert forall|i: int| 0 <= i < s.len() && s.last()@ != key implies (
            #[trigger] s[i])@ != key by {
                if i < t.len() {
                    assert(t[i] == s[i]);
                }
            }
        } else {
            let i = choose|i: int| 0 <= i < t.len() && (#[trigger] t[i])@ == key;
            assert(s[i]@ == key);
        }
    }
}

/// The runtime `local` is the local one; anything else is Docker.
pub proof fn only_local_is_local(name: Seq<char>)
    ensures
        (runtime_of(name) == Runtime::Local) == (name == "local"@),
        (runtime_of(name) == Runtime::Docker) == (name != "local"@),
{
}

} // verus!
