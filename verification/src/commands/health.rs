//! The health of a running hub, for reading.

use vstd::prelude::*;

use crate::commands::{cat3, push_line};
use crate::json::{Json, JsonView};
use crate::text::{cat, decimal_of, pad_left, pad_right};

verus! {

/// A row of the table of backends.
pub open spec fn row(
    name: Seq<char>,
    scope: Seq<char>,
    ready: Seq<char>,
    tools: Seq<char>,
    idle: Seq<char>,
) -> Seq<char> {
    "  "@ + crate::text::padded_right(name, 20) + " "@ + crate::text::padded_right(scope, 12) + " "@
        + crate::text::padded_right(ready, 8) + " "@ + crate::text::padded_right(tools, 6) + " "@
        + idle
}

/// How long a backend has been idle: whole minutes from one minute on, else
/// seconds.
pub open spec fn idle_words(secs: Option<int>) -> Seq<char> {
    match secs {
        Some(s) => if s >= 60 {
            crate::text::decimal(s / 60) + "m"@
        } else {
            crate::text::decimal(s) + "s"@
        },
        None => "—"@,
    }
}

/// The number in the member `key`, or zero.
pub open spec fn count_of(v: JsonView, key: Seq<char>) -> int {
    match crate::json::uint_of(crate::json::member_of(v, key)) {
        Some(n) => n,
        None => 0,
    }
}

/// The row for a backend.
pub open spec fn backend_row(be: JsonView) -> Seq<char> {
    row(
        crate::json::text_or_unknown(be, "name"@),
        crate::json::text_or_unknown(be, "scope"@),
        if crate::json::bool_of(crate::json::member_of(be, "ready"@)) == Some(true) {
            "✓"@
        } else {
            "✗"@
        },
        crate::text::decimal(count_of(be, "tools"@)),
        idle_words(crate::json::uint_of(crate::json::member_of(be, "idle_secs"@))),
    )
}

/// The line under the head of the table.
pub open spec fn rule() -> Seq<char> {
    "  "@ + Seq::new(60, |i: int| '─')
}

/// The lines for the backends, if they are listed.
pub open spec fn backend_lines(backends: Option<JsonView>) -> Seq<Seq<char>> {
    match backends {
        Some(JsonView::Array(items)) => if items.len() == 0 {
            seq!["  no backends running"@]
        } else {
            seq![row("NAME"@, "SCOPE"@, "READY"@, "TOOLS"@, "IDLE"@), rule()] + Seq::new(
                items.len(),
                |i: int| backend_row(items[i]),
            )
        },
        _ => Seq::empty(),
    }
}

/// The lines for the health `data` of the hub on `port`.
pub open spec fn health_lines(port: int, data: JsonView) -> Seq<Seq<char>> {
    seq!["✅ hub is running (port "@ + crate::text::decimal(port) + ")"@, ""@] + backend_lines(
        crate::json::member_of(data, "backends"@),
    ) + seq![""@, "  active sessions: "@ + crate::text::decimal(count_of(data, "session_count"@))]
}

fn row_of(name: &str, scope: &str, ready: &str, tools: &str, idle: &str) -> (r: String)
    ensures
        r@ == row(name@, scope@, ready@, tools@, idle@),
{
    let a = pad_right(name, 20);
    let b = pad_right(scope, 12);
    let c = pad_right(ready, 8);
    let d = pad_right(tools, 6);
    let mut r = cat3("  ", a.as_str(), " ");
    r.append(b.as_str());
    r.append(" ");
    r.append(c.as_str());
    r.append(" ");
    r.append(d.as_str());
    r.append(" ");
    r.append(idle);
    r
}

/// How long a backend has been idle, in words.
pub fn describe_idle(secs: Option<u64>) -> (r: String)
    ensures
        r@ == idle_words(
            match secs {
                Some(s) => Some(s as int),
                None => None,
            },
        ),
{
    match secs {
        Some(s) => if s >= 60 {
            let minutes = decimal_of(s / 60);
            cat(minutes.as_str(), "m")
        } else {
            let seconds = decimal_of(s);
            cat(seconds.as_str(), "s")
        },
        None => "—".to_owned(),
    }
}

fn backend_row_of(be: &Json) -> (r: String)
    ensures
        r@ == backend_row(be@),
{
    let name = be.text_or("name", "?");
    let scope = be.text_or("scope", "?");
    let is_ready: bool = match be.get("ready") {
        Some(v) => match v.as_bool() {
            Some(b) => b,
            None => false,
        },
        None => false,
    };
    let ready: &str = if is_ready {
        "✓"
    } else {
        "✗"
    };
    let tools = decimal_of(be.uint_or_zero("tools"));
    let secs: Option<u64> = match be.get("idle_secs") {
        Some(v) => v.as_u64(),
        None => None,
    };
    let idle = describe_idle(secs);
    row_of(name.as_str(), scope.as_str(), ready, tools.as_str(), idle.as_str())
}

/// The lines to show for the health `data` of the hub on `port`.
pub fn report(port: u16, data: &Json) -> (r: Vec<String>)
    ensures
        crate::text::texts(r@) == health_lines(port as int, data@),
{
    let mut out: Vec<String> = Vec::new();
    assert(crate::text::texts(out@) =~= Seq::empty());
    let number = decimal_of(port as u64);
    push_line(&mut out, cat3("✅ hub is running (port ", number.as_str(), ")"));
    push_line(&mut out, "".to_owned());
    let ghost head = crate::text::texts(out@);
    let ghost backends = crate::json::member_of(data@, "backends"@);
    assert(head + backend_lines(None) =~= head);
    match data.get("backends") {
        Some(Json::Array(items)) => {
            if items.len() == 0 {
                push_line(&mut out, "  no backends running".to_owned());
                assert(crate::text::texts(out@) =~= head + backend_lines(backends));
            } else {
                push_line(&mut out, row_of("NAME", "SCOPE", "READY", "TOOLS", "IDLE"));
                let line = pad_left("", '─', 60);
                let ruled = cat("  ", line.as_str());
                proof {
                    reveal_strlit("");
                    assert(ruled@ =~= rule());
                }
                push_line(&mut out, ruled);
                let ghost views = crate::json::items_view(items@);
                let ghost want = backend_lines(backends);
                proof {
                    crate::json::lemma_items(items@);
                    assert(backends == Some(JsonView::Array(views)));
                    assert(head + want.take(2) =~= crate::text::texts(out@));
                }
                let mut i: usize = 0;
                while i < items.len()
                    invariant
                        i <= items@.len(),
                        views == crate::json::items_view(items@),
                        views.len() == items@.len(),
                        forall|k: int|
                            0 <= k < items@.len() ==> views[k] == crate::json::json_view(
                                #[trigger] items@[k],
                            ),
                        want == seq![row("NAME"@, "SCOPE"@, "READY"@, "TOOLS"@, "IDLE"@), rule()]
                            + Seq::new(views.len(), |i: int| backend_row(views[i])),
                        crate::text::texts(out@) == head + want.take(i + 2),
                    decreases items@.len() - i,
                {
                    push_line(&mut out, backend_row_of(&items[i]));
                    assert(want[i + 2] == backend_row(views[i as int]));
                    assert(head + want.take(i + 3) =~= (head + want.take(i + 2)).push(
                        want[i + 2],
                    ));
                    i = i + 1;
                }
                assert(want.take(want.len() as int) =~= want);
            }
        },
        _ => {},
    }
    assert(crate::text::texts(out@) =~= head + backend_lines(backends));
    push_line(&mut out, "".to_owned());
    let sessions = decimal_of(data.uint_or_zero("session_count"));
    push_line(&mut out, cat("  active sessions: ", sessions.as_str()));
    assert(crate::text::texts(out@) =~= health_lines(port as int, data@));
    out
}

/// Where the health of the hub on `port` is asked for.
pub fn health_url(port: u16) -> (r: String)
    ensures
        r@ == "http://localhost:"@ + crate::text::decimal(port as int) + "/health"@,
{
    let number = decimal_of(port as u64);
    cat3("http://localhost:", number.as_str(), "/health")
}

/// The line for a hub that answers with an error status.
pub fn refused(status: &str) -> (r: String)
    ensures
        r@ == "❌ HTTP "@ + status@,
{
    cat("❌ HTTP ", status)
}

/// The line for a hub that does not answer.
pub fn no_answer(url: &str, e: &str) -> (r: String)
    ensures
        r@ == "❌ cannot reach hub at "@ + url@ + ": "@ + e@,
{
    let mut r = cat3("❌ cannot reach hub at ", url, ": ");
    r.append(e);
    r
}

// ---------------------------------------------------------------------------
// Laws
// ---------------------------------------------------------------------------

/// Idle time is said in minutes from a minute on, before that in seconds; what
/// is never idle has a dash.
pub proof fn idle_time_in_minutes_or_seconds(secs: int)
    requires
        0 <= secs,
    ensures
        secs < 60 ==> idle_words(Some(secs)) == crate::text::decimal(secs) + "s"@,
        secs >= 60 ==> idle_words(Some(secs)) == crate::text::decimal(secs / 60) + "m"@,
        idle_words(None) == "—"@,
{
}

/// Each backend has a row of its own, in order, with its name first.
pub proof fn each_backend_has_a_row(items: Seq<JsonView>, m: Map<Seq<char>, JsonView>, name: Seq<char>, i: int)
    requires
        0 <= i < items.len(),
        items[i] == JsonView::Object(m),
        m.dom().contains("name"@),
        m["name"@] == JsonView::Str(name),
    ensures
        backend_lines(Some(JsonView::Array(items))).len() == items.len() + 2,
        crate::text::begins(
            backend_lines(Some(JsonView::Array(items)))[i + 2],
            "  "@ + name,
        ),
{
    let line = backend_row(items[i]);
    assert(backend_lines(Some(JsonView::Array(items)))[i + 2] == line);
    let pad = crate::text::padded_right(name, 20);
    crate::text::padding_fills_to_the_width(name, ' ', 20, 0);
    assert(pad.subrange(0, name.len() as int) == name);
    let n = ("  "@ + name).len() as int;
    assert(line.subrange(0, n) =~= "  "@ + pad.subrange(0, name.len() as int));
}

/// A number of the health is taken if it is one, else it counts as none.
pub proof fn counts_are_taken_from_the_health(
    m: Map<Seq<char>, JsonView>,
    key: Seq<char>,
    n: int,
)
    ensures
        m.dom().contains(key) && m[key] == JsonView::Int(n) && 0 <= n <= u64::MAX ==> count_of(
            JsonView::Object(m),
            key,
        ) == n,
        !m.dom().contains(key) ==> count_of(JsonView::Object(m), key) == 0,
{
}

/// The report says the port and the number of sessions, around the backends.
pub proof fn report_says_port_and_sessions(port: int, m: Map<Seq<char>, JsonView>)
    ensures
        ({
            let r = health_lines(port, JsonView::Object(m));
            let n = backend_lines(
                if m.dom().contains("backends"@) {
                    Some(m["backends"@])
                } else {
                    None
                },
            ).len();
            &&& r.len() == n + 4
            &&& crate::text::contains_pat(r[0], "(port "@ + crate::text::decimal(port) + ")"@)
            &&& crate::text::contains_pat(
                r[n as int + 3],
                "active sessions: "@ + crate::text::decimal(
                    count_of(JsonView::Object(m), "session_count"@),
                ),
            )
        }),
{
    reveal_strlit("✅ hub is running (port ");
    reveal_strlit("(port ");
    reveal_strlit("  active sessions: ");
    reveal_strlit("active sessions: ");
    let a = "✅ hub is running (port "@;
    let h = a.subrange(0, a.len() - "(port "@.len());
    assert(a =~= h + "(port "@);
    let pat = "(port "@ + crate::text::decimal(port) + ")"@;
    let none = Seq::<char>::empty();
    assert(a + crate::text::decimal(port) + ")"@ =~= h + pat + none);
    crate::text::lemma_part_stands(h, pat, none);
    let b = "  active sessions: "@;
    let g = b.subrange(0, 2);
    assert(b =~= g + "active sessions: "@);
    let c = crate::text::decimal(count_of(JsonView::Object(m), "session_count"@));
    let q = "active sessions: "@ + c;
    assert(b + c =~= g + q + none);
    crate::text::lemma_part_stands(g, q, none);
}

/// A row says whether the backend is ready, how many tools it has and for how
/// long it has been idle, in that order.
pub proof fn rows_say_the_state(
    name: Seq<char>,
    scope: Seq<char>,
    ready: Seq<char>,
    tools: Seq<char>,
    idle: Seq<char>,
)
    ensures
        crate::text::contains_pat(row(name, scope, ready, tools, idle), scope),
        crate::text::contains_pat(row(name, scope, ready, tools, idle), ready),
        crate::text::contains_pat(row(name, scope, ready, tools, idle), tools),
        row(name, scope, ready, tools, idle).subrange(
            row(name, scope, ready, tools, idle).len() - idle.len(),
            row(name, scope, ready, tools, idle).len() as int,
        ) == idle,
{
    let r = row(name, scope, ready, tools, idle);
    let a = "  "@ + crate::text::padded_right(name, 20) + " "@;
    let s = crate::text::padded_right(scope, 12);
    let d = crate::text::padded_right(ready, 8);
    let t = crate::text::padded_right(tools, 6);
    lemma_padded_holds(scope, 12);
    lemma_padded_holds(ready, 8);
    lemma_padded_holds(tools, 6);
    assert(r =~= a + s + (" "@ + d + " "@ + t + " "@ + idle));
    crate::text::lemma_stands_in_whole(a, s, " "@ + d + " "@ + t + " "@ + idle, scope);
    assert(r =~= (a + s + " "@) + d + (" "@ + t + " "@ + idle));
    crate::text::lemma_stands_in_whole(a + s + " "@, d, " "@ + t + " "@ + idle, ready);
    assert(r =~= (a + s + " "@ + d + " "@) + t + (" "@ + idle));
    crate::text::lemma_stands_in_whole(a + s + " "@ + d + " "@, t, " "@ + idle, tools);
    assert(r.subrange(r.len() - idle.len(), r.len() as int) =~= idle);
}

proof fn lemma_padded_holds(s: Seq<char>, width: int)
    ensures
        crate::text::contains_pat(crate::text::padded_right(s, width), s),
{
    crate::text::padding_fills_to_the_width(s, ' ', width, 0);
    assert(crate::text::occurs_at(crate::text::padded_right(s, width), s, 0));
}

/// The row of a backend is ticked if it is ready, and crossed otherwise.
pub proof fn ready_backends_are_ticked(m: Map<Seq<char>, JsonView>, ready: bool)
    requires
        m.dom().contains("ready"@),
        m["ready"@] == JsonView::Bool(ready),
    ensures
        crate::text::contains_pat(
            backend_row(JsonView::Object(m)),
            if ready {
                "✓"@
            } else {
                "✗"@
            },
        ),
{
    let be = JsonView::Object(m);
    rows_say_the_state(
        crate::json::text_or_unknown(be, "name"@),
        crate::json::text_or_unknown(be, "scope"@),
        if ready {
            "✓"@
        } else {
            "✗"@
        },
        crate::text::decimal(count_of(be, "tools"@)),
        idle_words(crate::json::uint_of(crate::json::member_of(be, "idle_secs"@))),
    );
}

} // verus!
