//! Testing each server of the config.

use vstd::prelude::*;

use crate::backend::Tool;
use crate::commands::{cat3, push_line};
use crate::config::{Config, ServerView, is_server_disabled};
use crate::expand::Texts;
use crate::names::NameMap;
use crate::text::{cat, contains_text, decimal_of};

verus! {

/// Whether a server is tested: it is not disabled, and it is among `wanted`,
/// unless that is empty.
pub open spec fn is_target(
    name: Seq<char>,
    srv: ServerView,
    wanted: Seq<Seq<char>>,
    process_env: Texts,
) -> bool {
    !crate::config::disabled(name, srv, process_env) && (wanted.len() == 0 || wanted.contains(
        name,
    ))
}

/// The names of the servers that are tested.
pub open spec fn targets_of(
    servers: Seq<(Seq<char>, ServerView)>,
    wanted: Seq<Seq<char>>,
    process_env: Texts,
) -> Seq<Seq<char>>
    decreases servers.len(),
{
    if servers.len() == 0 {
        Seq::empty()
    } else {
        let before = targets_of(servers.drop_last(), wanted, process_env);
        if is_target(servers.last().0, servers.last().1, wanted, process_env) {
            before.push(servers.last().0)
        } else {
            before
        }
    }
}

/// The servers to test.
pub fn targets(cfg: &Config, wanted: &Vec<String>, process_env: &NameMap<String>) -> (r: Vec<
    String,
>)
    ensures
        crate::text::texts(r@) == targets_of(
            cfg.servers.pairs(),
            crate::text::texts(wanted@),
            process_env@,
        ),
{
    let n: usize = cfg.servers.len();
    let ghost servers = cfg.servers.pairs();
    let ghost names = crate::text::texts(wanted@);
    let mut out: Vec<String> = Vec::new();
    let mut i: usize = 0;
    assert(servers.take(0) =~= Seq::empty());
    assert(crate::text::texts(out@) =~= Seq::empty());
    while i < n
        invariant
            servers == cfg.servers.pairs(),
            names == crate::text::texts(wanted@),
            n == servers.len(),
            i <= n,
            crate::text::texts(out@) == targets_of(servers.take(i as int), names, process_env@),
        decreases n - i,
    {
        assert(servers.take(i + 1).drop_last() =~= servers.take(i as int));
        let name = cfg.servers.name_at(i);
        let skipped: bool = is_server_disabled(name.as_str(), cfg.servers.value_at(i), process_env);
        if !skipped && (wanted.len() == 0 || contains_text(wanted, name.as_str())) {
            push_line(&mut out, name.clone());
        }
        i = i + 1;
    }
    assert(servers.take(n as int) =~= servers);
    out
}

/// The lines at the start: the config at `path` has been read, and has `n`
/// servers.
pub fn opening(path: &str, n: usize) -> (r: Vec<String>)
    ensures
        crate::text::texts(r@) == seq![
            "🔍 validating config: "@ + path@,
            "  ✅ config parsed ("@ + crate::text::decimal(n as int) + " server(s))"@,
            ""@,
        ],
{
    let mut out: Vec<String> = Vec::new();
    push_line(&mut out, cat("🔍 validating config: ", path));
    let number = decimal_of(n as u64);
    push_line(&mut out, cat3("  ✅ config parsed (", number.as_str(), " server(s))"));
    push_line(&mut out, "".to_owned());
    assert(crate::text::texts(out@) =~= seq![
        "🔍 validating config: "@ + path@,
        "  ✅ config parsed ("@ + crate::text::decimal(n as int) + " server(s))"@,
        ""@,
    ]);
    out
}

/// What is shown before a server is tested.
pub fn testing(name: &str) -> (r: String)
    ensures
        r@ == "  testing "@ + name@ + "..."@,
{
    cat3("  testing ", name, "...")
}

/// The lines for a server that has started with `tools`.
pub open spec fn passed_lines(tools: Seq<Tool>) -> Seq<Seq<char>> {
    seq![" ✅ "@ + crate::text::decimal(tools.len() as int) + " tool(s)"@] + Seq::new(
        tools.len(),
        |i: int| "    • "@ + tools[i].name@,
    )
}

/// The lines for a server that has started with `tools`.
pub fn passed(tools: &Vec<Tool>) -> (r: Vec<String>)
    ensures
        crate::text::texts(r@) == passed_lines(tools@),
{
    let mut out: Vec<String> = Vec::new();
    let n: usize = tools.len();
    let number = decimal_of(n as u64);
    push_line(&mut out, cat3(" ✅ ", number.as_str(), " tool(s)"));
    let ghost want = passed_lines(tools@);
    assert(crate::text::texts(out@) =~= want.take(1));
    let mut i: usize = 0;
    while i < n
        invariant
            n == tools@.len(),
            i <= n,
            want == passed_lines(tools@),
            crate::text::texts(out@) == want.take(i + 1),
        decreases n - i,
    {
        push_line(&mut out, cat("    • ", tools[i].name.as_str()));
        assert(want.take(i + 2) =~= want.take(i + 1).push(want[i + 1]));
        i = i + 1;
    }
    assert(want.take(want.len() as int) =~= want);
    out
}

/// The line for a server that has failed.
pub fn failed(e: &str) -> (r: String)
    ensures
        r@ == " ❌ "@ + e@,
{
    cat(" ❌ ", e)
}

/// How many of the outcomes are `which`.
pub open spec fn count(outcomes: Seq<bool>, which: bool) -> int
    decreases outcomes.len(),
{
    if outcomes.len() == 0 {
        0
    } else {
        count(outcomes.drop_last(), which) + (if outcomes.last() == which {
            1int
        } else {
            0
        })
    }
}

fn count_all(outcomes: &Vec<bool>, which: bool) -> (r: usize)
    ensures
        r == count(outcomes@, which),
{
    let mut k: usize = 0;
    let mut i: usize = 0;
    let n: usize = outcomes.len();
    assert(outcomes@.take(0) =~= Seq::empty());
    while i < n
        invariant
            n == outcomes@.len(),
            k <= i <= n,
            k == count(outcomes@.take(i as int), which),
        decreases n - i,
    {
        assert(outcomes@.take(i + 1).drop_last() =~= outcomes@.take(i as int));
        if outcomes[i] == which {
            k = k + 1;
        }
        i = i + 1;
    }
    assert(outcomes@.take(n as int) =~= outcomes@);
    k
}

/// The last lines, and the error if any server has failed.
pub struct Verdict {
    pub lines: Vec<String>,
    pub error: Option<String>,
}

/// Sums the outcomes up.
pub fn summary(outcomes: &Vec<bool>) -> (r: Verdict)
    ensures
        ({
            let pass = crate::text::decimal(count(outcomes@, true));
            let fail = crate::text::decimal(count(outcomes@, false));
            &&& crate::text::texts(r.lines@) == seq![""@, pass + " passed, "@ + fail + " failed"@]
            &&& crate::text::opt_text(r.error) == (if count(outcomes@, false) > 0 {
                Some(fail + " server(s) failed validation"@)
            } else {
                None
            })
        }),
{
    let pass: usize = count_all(outcomes, true);
    let fail: usize = count_all(outcomes, false);
    let pass_text = decimal_of(pass as u64);
    let fail_text = decimal_of(fail as u64);
    let mut lines: Vec<String> = Vec::new();
    push_line(&mut lines, "".to_owned());
    let mut line = cat3(pass_text.as_str(), " passed, ", fail_text.as_str());
    line.append(" failed");
    let ghost last = line@;
    push_line(&mut lines, line);
    assert(crate::text::texts(lines@) =~= seq![""@, last]);
    let error: Option<String> = if fail > 0 {
        Some(cat(fail_text.as_str(), " server(s) failed validation"))
    } else {
        None
    };
    Verdict { lines, error }
}

// ---------------------------------------------------------------------------
// Laws
// ---------------------------------------------------------------------------

/// Every test has passed or failed.
pub proof fn every_test_counts(outcomes: Seq<bool>)
    ensures
        count(outcomes, true) + count(outcomes, false) == outcomes.len(),
    decreases outcomes.len(),
{
    if outcomes.len() > 0 {
        every_test_counts(outcomes.drop_last());
    }
}

/// Exactly the enabled servers that are wanted are tested; if none is wanted by
/// name, all are.
pub proof fn targets_are_those_wanted(
    servers: Seq<(Seq<char>, ServerView)>,
    wanted: Seq<Seq<char>>,
    process_env: Texts,
    name: Seq<char>,
)
    ensures
        targets_of(servers, wanted, process_env).contains(name) == ((wanted.len() == 0
            || wanted.contains(name)) && exists|i: int|
            0 <= i < servers.len() && (#[trigger] servers[i]).0 == name
                && !crate::config::disabled(name, servers[i].1, process_env)),
    decreases servers.len(),
{
    if servers.len() > 0 {
        let rest = servers.drop_last();
        targets_are_those_wanted(rest, wanted, process_env, name);
        let last = servers.last();
        assert(servers[servers.len() - 1] == last);
        crate::picked::lemma_push_contains(
            targets_of(rest, wanted, process_env),
            last.0,
            name,
        );
        if exists|i: int|
            0 <= i < rest.len() && (#[trigger] rest[i]).0 == name && !crate::config::disabled(
                name,
                rest[i].1,
                process_env,
            ) {
            let i = choose|i: int|
                0 <= i < rest.len() && (#[trigger] rest[i]).0 == name && !crate::config::disabled(
                    name,
                    rest[i].1,
                    process_env,
                );
            assert(servers[i] == rest[i]);
        }
        if exists|i: int|
            0 <= i < servers.len() && (#[trigger] servers[i]).0 == name
                && !crate::config::disabled(name, servers[i].1, process_env) {
            let i = choose|i: int|
                0 <= i < servers.len() && (#[trigger] servers[i]).0 == name
                    && !crate::config::disabled(name, servers[i].1, process_env);
            if i < rest.len() {
                assert(rest[i] == servers[i]);
            }
        }
    }
}

/// The tests that passed, or failed, are counted one by one.
pub proof fn outcomes_are_counted(a: Seq<bool>, b: Seq<bool>, one: bool, which: bool)
    ensures
        count(a + b, which) == count(a, which) + count(b, which),
        count(seq![one], which) == (if one == which {
            1int
        } else {
            0int
        }),
    decreases b.len(),
{
    reveal_with_fuel(count, 2);
    assert(seq![one].drop_last() =~= Seq::empty());
    if b.len() == 0 {
        assert(a + b =~= a);
    } else {
        assert((a + b).drop_last() =~= a + b.drop_last());
        outcomes_are_counted(a, b.drop_last(), one, which);
    }
}

/// A test that passed says how many tools there are, and each by its name.
pub proof fn passed_test_lists_the_tools(tools: Seq<Tool>, i: int)
    ensures
        passed_lines(tools).len() == tools.len() + 1,
        crate::text::contains_pat(
            passed_lines(tools)[0],
            crate::text::decimal(tools.len() as int),
        ),
        0 <= i < tools.len() ==> passed_lines(tools)[i + 1] == "    • "@ + tools[i].name@,
{
    crate::text::lemma_part_stands(
        " ✅ "@,
        crate::text::decimal(tools.len() as int),
        " tool(s)"@,
    );
}

} // verus!
