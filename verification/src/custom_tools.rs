//! Tools that are defined in the config itself.
//!
//! A custom tool runs a shell command or an HTTP request. Its name begins with
//! [`CUSTOM_TOOL_PREFIX`], so that it collides with no backend's tool.
use vstd::prelude::*;

use crate::backend::{Tool, ToolView, tools_view};
use crate::config::{CustomToolConfig, CustomToolView, is_set_aside, is_toggled_off};
use crate::expand::{Texts, expand_within};
use crate::json::{Json, JsonView, js, no_members, put, text};
use crate::names::{Duplicate, NameMap};
use crate::picked::picked;
use crate::text::{cat, chars_of, find_text, same_text, string_of, without_prefix};

verus! {

/// What the names of custom tools begin with.
pub const CUSTOM_TOOL_PREFIX: &'static str = "custom_";

/// The custom tools that are in use.
pub struct CustomTools {
    pub tools: NameMap<CustomToolConfig>,
}

/// The tool is in use: its name is not set aside, and its toggle does not say
/// "disabled".
pub open spec fn in_use(process_env: Texts) -> spec_fn((Seq<char>, CustomToolView)) -> bool {
    |p: (Seq<char>, CustomToolView)|
        !crate::config::set_aside(p.0) && !crate::config::toggled_off(
            p.1.env_toggle(),
            process_env,
        )
}

/// The name of a custom tool without the prefix.
pub open spec fn custom_key(name: Seq<char>) -> Seq<char> {
    if crate::text::begins(name, "custom_"@) {
        name.subrange("custom_"@.len() as int, name.len() as int)
    } else {
        name
    }
}

/// The custom tool as clients see it.
pub open spec fn custom_tool_view(p: (Seq<char>, CustomToolView)) -> ToolView {
    ToolView {
        name: "custom_"@ + p.0,
        description: Some(p.1.description()),
        input_schema: Some(p.1.input_schema()),
        original_name: p.0,
    }
}

/// The custom tools as clients see them.
pub open spec fn custom_tool_views(s: Seq<(Seq<char>, CustomToolView)>) -> Seq<ToolView> {
    Seq::new(s.len(), |i: int| custom_tool_view(s[i]))
}

// ---------------------------------------------------------------------------
// Substitution
// ---------------------------------------------------------------------------

/// An argument as text: a string as it is, anything else as JSON.
pub open spec fn argument_text(v: JsonView) -> Seq<char> {
    match v {
        JsonView::Str(s) => s,
        other => crate::json::compact_text(other),
    }
}

/// The arguments of a call as texts; arguments that are no object are none.
pub open spec fn argument_texts(args: JsonView) -> Texts {
    match args {
        JsonView::Object(m) => Map::new(
            |k: Seq<char>| m.dom().contains(k),
            |k: Seq<char>| argument_text(m[k]),
        ),
        _ => Map::empty(),
    }
}

/// The leftmost mark `{{name}}` at or after `from` that names an argument:
/// where it begins, and where its closing braces begin.
pub open spec fn next_mark(s: Seq<char>, args: Texts, from: int) -> Option<(int, int)>
    decreases s.len() - from,
{
    match crate::expand::placeholder(s, "{{"@, "}}"@, from) {
        Some(at) => if args.dom().contains(crate::expand::key_at(s, "{{"@, at)) {
            Some(at)
        } else if from <= at.0 < s.len() {
            next_mark(s, args, at.0 + 1)
        } else {
            None
        },
        None => None,
    }
}

/// A text with its `${NAME}` placeholders replaced: from the arguments, else
/// from the process environment, else by nothing.
pub open spec fn vars_replaced(s: Seq<char>, args: Texts, process_env: Texts) -> Seq<char> {
    crate::expand::expansion(s, crate::config::var_marks(), args, process_env)
}

/// The template from place `from` on with its placeholders replaced.
pub open spec fn substituted_from(
    s: Seq<char>,
    args: Texts,
    process_env: Texts,
    from: int,
) -> Seq<char>
    decreases s.len() - from,
{
    match next_mark(s, args, from) {
        Some(at) => if from <= at.0 < at.1 <= s.len() - 2 {
            vars_replaced(s.subrange(from, at.0), args, process_env)
                + args[crate::expand::key_at(s, "{{"@, at)] + substituted_from(
                s,
                args,
                process_env,
                at.1 + 2,
            )
        } else {
            Seq::empty()
        },
        None => vars_replaced(s.subrange(from, s.len() as int), args, process_env),
    }
}

/// A template with its placeholders replaced. A mark `{{name}}` that names an
/// argument is replaced by the argument as it is; one that names none is left.
/// In the text between such marks, `${NAME}` is replaced from the arguments,
/// else from the process environment, else by nothing.
pub open spec fn substituted(template: Seq<char>, args: Texts, process_env: Texts) -> Seq<char> {
    substituted_from(template, args, process_env, 0)
}

/// Each text between marks, from place `from` on, takes at most `limit`
/// replacements.
pub open spec fn settles_from(
    s: Seq<char>,
    args: Texts,
    process_env: Texts,
    from: int,
    limit: nat,
) -> bool
    decreases s.len() - from,
{
    match next_mark(s, args, from) {
        Some(at) => from <= at.0 < at.1 <= s.len() - 2 && crate::expand::settles_by(
            s.subrange(from, at.0),
            crate::config::var_marks(),
            args,
            process_env,
            limit,
        ) && settles_from(s, args, process_env, at.1 + 2, limit),
        None => crate::expand::settles_by(
            s.subrange(from, s.len() as int),
            crate::config::var_marks(),
            args,
            process_env,
            limit,
        ),
    }
}

/// Each text between the marks of the template takes at most `limit`
/// replacements.
pub open spec fn substitution_settles(
    template: Seq<char>,
    args: Texts,
    process_env: Texts,
    limit: nat,
) -> bool {
    settles_from(template, args, process_env, 0, limit)
}

/// A mark stands within the text, at or after `from`, and names an argument.
proof fn lemma_next_mark(s: Seq<char>, args: Texts, from: int)
    requires
        0 <= from,
    ensures
        next_mark(s, args, from) matches Some(at) ==> from <= at.0 && at.0 + 2 <= at.1 && at.1 + 2
            <= s.len() && args.dom().contains(crate::expand::key_at(s, "{{"@, at)),
    decreases s.len() - from,
{
    reveal_strlit("{{");
    reveal_strlit("}}");
    crate::text::lemma_find_from(s, "{{"@, from);
    match crate::expand::placeholder(s, "{{"@, "}}"@, from) {
        Some(at) => {
            crate::text::lemma_find_from(s, "}}"@, at.0 + 2);
            if !args.dom().contains(crate::expand::key_at(s, "{{"@, at)) {
                lemma_next_mark(s, args, at.0 + 1);
            }
        },
        None => {},
    }
}

/// Finds the leftmost mark at or after `from` that names an argument.
fn find_mark(cs: &Vec<char>, args: &NameMap<String>, from: usize) -> (r: Option<(usize, usize)>)
    requires
        from <= cs@.len(),
    ensures
        r is None == next_mark(cs@, args@, from as int) is None,
        r matches Some(at) ==> next_mark(cs@, args@, from as int) == Some(
            (at.0 as int, at.1 as int),
        ),
{
    let opening = chars_of("{{");
    let closing = chars_of("}}");
    proof {
        reveal_strlit("{{");
        reveal_strlit("}}");
    }
    let n: usize = cs.len();
    let mut i: usize = from;
    loop
        invariant
            opening@ == "{{"@,
            closing@ == "}}"@,
            opening@.len() == 2,
            closing@.len() == 2,
            n == cs@.len(),
            from <= i <= n,
            next_mark(cs@, args@, from as int) == next_mark(cs@, args@, i as int),
        decreases n - i,
    {
        proof {
            crate::text::lemma_find_from(cs@, opening@, i as int);
        }
        let a: usize = match find_text(cs, &opening, i) {
            Some(a) => a,
            None => {
                return None;
            },
        };
        proof {
            crate::text::lemma_find_from(cs@, closing@, a + 2);
        }
        let b: usize = match find_text(cs, &closing, a + 2) {
            Some(b) => b,
            None => {
                return None;
            },
        };
        let key = string_of(cs, a + 2, b);
        if args.contains(key.as_str()) {
            return Some((a, b));
        }
        i = a + 1;
    }
}

/// Replaces the placeholders of a template; nothing if a text between its marks
/// needs more than `limit` replacements.
pub fn substitute(
    template: &str,
    args: &NameMap<String>,
    process_env: &NameMap<String>,
    limit: u64,
) -> (r: Option<String>)
    ensures
        r is Some == substitution_settles(template@, args@, process_env@, limit as nat),
        r matches Some(t) ==> t@ == substituted(template@, args@, process_env@),
{
    let cs = chars_of(template);
    let n: usize = cs.len();
    let mut out = String::new();
    let mut from: usize = 0;
    assert(out@ + substituted_from(cs@, args@, process_env@, 0) =~= substituted(
        template@,
        args@,
        process_env@,
    ));
    loop
        invariant
            cs@ == template@,
            n == cs@.len(),
            from <= n,
            substitution_settles(template@, args@, process_env@, limit as nat) == settles_from(
                cs@,
                args@,
                process_env@,
                from as int,
                limit as nat,
            ),
            out@ + substituted_from(cs@, args@, process_env@, from as int) == substituted(
                template@,
                args@,
                process_env@,
            ),
        decreases n - from,
    {
        proof {
            reveal_strlit("{{");
            lemma_next_mark(cs@, args@, from as int);
        }
        let mark = find_mark(&cs, args, from);
        let end: usize = match mark {
            Some((a, _)) => a,
            None => n,
        };
        let between = string_of(&cs, from, end);
        let plain = match expand_within(between.as_str(), "${", "}", args, process_env, limit) {
            Some(t) => t,
            None => {
                return None;
            },
        };
        let ghost before = out@;
        out.append(plain.as_str());
        match mark {
            None => {
                assert(out@ =~= substituted(template@, args@, process_env@));
                return Some(out);
            },
            Some((a, b)) => {
                let key = string_of(&cs, a + 2, b);
                match args.get(key.as_str()) {
                    Some(v) => {
                        out.append(v.as_str());
                    },
                    None => {},
                }
                assert(out@ + substituted_from(cs@, args@, process_env@, b + 2) =~= before
                    + substituted_from(cs@, args@, process_env@, from as int));
                from = b + 2;
            },
        }
    }
}

/// A JSON value with the placeholders of every string in it replaced.
pub open spec fn substituted_value(v: JsonView, args: Texts, process_env: Texts) -> JsonView
    decreases v,
{
    match v {
        JsonView::Str(s) => JsonView::Str(substituted(s, args, process_env)),
        JsonView::Array(items) => JsonView::Array(
            Seq::new(
                items.len(),
                |i: int|
                    if 0 <= i < items.len() {
                        substituted_value(items[i], args, process_env)
                    } else {
                        JsonView::Null
                    },
            ),
        ),
        JsonView::Object(m) => JsonView::Object(
            Map::new(
                |k: Seq<char>| m.dom().contains(k),
                |k: Seq<char>|
                    if m.dom().contains(k) {
                        substituted_value(m[k], args, process_env)
                    } else {
                        JsonView::Null
                    },
            ),
        ),
        other => other,
    }
}

/// The placeholders of every string in the value are replaced by at most
/// `limit` replacements a round.
pub open spec fn value_settles(v: JsonView, args: Texts, process_env: Texts, limit: nat) -> bool
    decreases v,
{
    match v {
        JsonView::Str(s) => substitution_settles(s, args, process_env, limit),
        JsonView::Array(items) => forall|i: int|
            0 <= i < items.len() ==> value_settles(#[trigger] items[i], args, process_env, limit),
        JsonView::Object(m) => forall|k: Seq<char>| #[trigger]
            m.dom().contains(k) ==> value_settles(m[k], args, process_env, limit),
        _ => true,
    }
}

/// Replaces the placeholders of every string in a JSON value; nothing if one
/// needs more than `limit` replacements a round.
pub fn substitute_value(
    v: &Json,
    args: &NameMap<String>,
    process_env: &NameMap<String>,
    limit: u64,
) -> (r: Option<Json>)
    ensures
        r is Some == value_settles(v@, args@, process_env@, limit as nat),
        r matches Some(j) ==> j@ == substituted_value(v@, args@, process_env@),
    decreases *v,
{
    match v {
        Json::Str(s) => match substitute(s.as_str(), args, process_env, limit) {
            Some(t) => Some(Json::Str(t)),
            None => None,
        },
        Json::Array(items) => {
            let mut out: Vec<Json> = Vec::new();
            let mut i: usize = 0;
            proof {
                crate::json::lemma_items(items@);
            }
            while i < items.len()
                invariant
                    *v == Json::Array(*items),
                    i <= items@.len(),
                    out@.len() == i,
                    forall|k: int|
                        0 <= k < i ==> value_settles(
                            (#[trigger] items@[k])@,
                            args@,
                            process_env@,
                            limit as nat,
                        ) && out@[k]@ == substituted_value(items@[k]@, args@, process_env@),
                decreases items@.len() - i,
            {
                proof {
                    crate::json::lemma_item_smaller(*v, i as int);
                    crate::json::lemma_items(items@);
                }
                match substitute_value(&items[i], args, process_env, limit) {
                    Some(j) => {
                        out.push(j);
                    },
                    None => {
                        assert(crate::json::items_view(items@)[i as int] == items@[i as int]@);
                        return None;
                    },
                }
                i = i + 1;
            }
            proof {
                crate::json::lemma_items(items@);
                crate::json::lemma_items(out@);
                let all = crate::json::items_view(items@);
                assert forall|k: int| 0 <= k < all.len() implies value_settles(
                    #[trigger] all[k],
                    args@,
                    process_env@,
                    limit as nat,
                ) by {
                    assert(all[k] == items@[k]@);
                }
                let mapped = substituted_value(v@, args@, process_env@)->Array_0;
                assert(crate::json::items_view(out@) =~= mapped) by {
                    assert forall|k: int| 0 <= k < all.len() implies #[trigger] mapped[k]
                        == crate::json::items_view(out@)[k] by {
                        assert(all[k] == items@[k]@);
                    }
                }
            }
            Some(Json::Array(out))
        },
        Json::Object(members) => {
            let mut out: Vec<(String, Json)> = Vec::new();
            let ghost whole = crate::json::members_view(members@);
            let mut i: usize = 0;
            while i < members.len()
                invariant
                    *v == Json::Object(*members),
                    whole == crate::json::members_view(members@),
                    i <= members@.len(),
                    forall|k: Seq<char>| #[trigger]
                        crate::json::members_view(out@).dom().contains(k)
                            ==> whole.dom().contains(k) && crate::json::members_view(out@)[k]
                            == substituted_value(whole[k], args@, process_env@) && value_settles(
                            whole[k],
                            args@,
                            process_env@,
                            limit as nat,
                        ),
                    forall|p: int|
                        0 <= p < i && (forall|q: int|
                            p < q < members@.len() ==> members@[q].0@ != members@[p].0@)
                            ==> crate::json::members_view(out@).dom().contains(
                            #[trigger] members@[p].0@,
                        ),
                decreases members@.len() - i,
            {
                let name: &String = &members[i].0;
                let at = crate::json::last_named(members, name.as_str());
                proof {
                    crate::json::lemma_occurs(members@, i as int);
                    crate::json::lemma_member_smaller(*v, i as int);
                }
                match at {
                    Some(p) => {
                        if p == i {
                            match substitute_value(&members[i].1, args, process_env, limit) {
                                Some(j) => {
                                    put(&mut out, name.as_str(), j);
                                },
                                None => {
                                    assert(whole.dom().contains(name@));
                                    return None;
                                },
                            }
                        }
                    },
                    None => {},
                }
                i = i + 1;
            }
            proof {
                assert forall|k: Seq<char>| #[trigger] whole.dom().contains(k) implies
                    crate::json::members_view(out@).dom().contains(k) by {
                    let p = crate::json::lemma_last(members@, k);
                    assert(crate::json::members_view(out@).dom().contains(members@[p].0@));
                }
                let mapped = substituted_value(v@, args@, process_env@)->Object_0;
                assert(crate::json::members_view(out@) =~= mapped);
                assert forall|k: Seq<char>| #[trigger] whole.dom().contains(k) implies
                    value_settles(whole[k], args@, process_env@, limit as nat) by {
                    assert(crate::json::members_view(out@).dom().contains(k));
                }
            }
            Some(Json::Object(out))
        },
        _ => Some(v.duplicate()),
    }
}

/// The arguments of a call as texts.
pub fn args_as_texts(args: &Json) -> (r: NameMap<String>)
    ensures
        r@ == argument_texts(args@),
{
    let mut out: NameMap<String> = NameMap::new();
    match args {
        Json::Object(members) => {
            let ghost all = members@;
            let mut i: usize = 0;
            assert(all.take(0) =~= Seq::empty());
            assert(out@ =~= argument_texts(
                JsonView::Object(crate::json::members_view(all.take(0))),
            ));
            while i < members.len()
                invariant
                    all == members@,
                    i <= all.len(),
                    out@ == argument_texts(
                        JsonView::Object(crate::json::members_view(all.take(i as int))),
                    ),
                decreases all.len() - i,
            {
                let value: String = match &members[i].1 {
                    Json::Str(s) => s.clone(),
                    other => other.to_text(),
                };
                proof {
                    assert(all.take(i + 1) =~= all.take(i as int).push(all[i as int]));
                    crate::json::lemma_members_push(all.take(i as int), all[i as int]);
                }
                out.insert(members[i].0.clone(), value);
                assert(out@ =~= argument_texts(
                    JsonView::Object(crate::json::members_view(all.take(i + 1))),
                ));
                i = i + 1;
            }
            assert(all.take(all.len() as int) =~= all);
        },
        _ => {},
    }
    out
}

// ---------------------------------------------------------------------------
// Calls
// ---------------------------------------------------------------------------

/// What to do for a call of a custom tool.
pub enum CustomCall {
    /// There is no such tool.
    Unknown(String),
    /// A template needs more replacements than allowed.
    Unsettled,
    /// Run a command in a shell.
    Shell { command: String },
    /// Send an HTTP request.
    Http { method: String, url: String, headers: NameMap<String>, body: Option<Json> },
}

/// The headers, each with its placeholders replaced.
pub open spec fn substituted_headers(headers: Option<Texts>, args: Texts, process_env: Texts) -> Texts {
    match headers {
        Some(h) => Map::new(
            |k: Seq<char>| h.dom().contains(k),
            |k: Seq<char>| substituted(h[k], args, process_env),
        ),
        None => Map::empty(),
    }
}

/// The placeholders of every header are replaced in time.
pub open spec fn headers_settle(
    headers: Option<Texts>,
    args: Texts,
    process_env: Texts,
    limit: nat,
) -> bool {
    match headers {
        Some(h) => forall|k: Seq<char>| #[trigger]
            h.dom().contains(k) ==> substitution_settles(h[k], args, process_env, limit),
        None => true,
    }
}

fn substitute_headers(
    headers: &Option<NameMap<String>>,
    args: &NameMap<String>,
    process_env: &NameMap<String>,
    limit: u64,
) -> (r: Option<NameMap<String>>)
    ensures
        r is Some == headers_settle(
            crate::config::headers_view(*headers),
            args@,
            process_env@,
            limit as nat,
        ),
        r matches Some(h) ==> h@ == substituted_headers(
            crate::config::headers_view(*headers),
            args@,
            process_env@,
        ),
{
    let mut out: NameMap<String> = NameMap::new();
    match headers {
        Some(h) => {
            let n: usize = h.len();
            let ghost pairs = h.pairs();
            let mut i: usize = 0;
            while i < n
                invariant
                    crate::config::headers_view(*headers) == Some(h@),
                    pairs == h.pairs(),
                    n == pairs.len(),
                    crate::names::distinct_names(pairs),
                    i <= n,
                    forall|k: Seq<char>| #[trigger]
                        out@.dom().contains(k) ==> h@.dom().contains(k) && out@[k]
                            == substituted(h@[k], args@, process_env@),
                    forall|j: int|
                        0 <= j < i ==> out@.dom().contains(#[trigger] pairs[j].0)
                            && substitution_settles(
                            pairs[j].1,
                            args@,
                            process_env@,
                            limit as nat,
                        ),
                decreases n - i,
            {
                proof {
                    crate::names::lemma_place(pairs, i as int);
                }
                match substitute(h.value_at(i).as_str(), args, process_env, limit) {
                    Some(v) => {
                        out.insert(h.name_at(i).clone(), v);
                    },
                    None => {
                        assert(h@[pairs[i as int].0] == pairs[i as int].1);
                        proof {
                            let name = pairs[i as int].0;
                            let given: Texts = crate::config::headers_view(*headers)->0;
                            assert(given.dom().contains(name));
                            assert(!substitution_settles(
                                given[name],
                                args@,
                                process_env@,
                                limit as nat,
                            ));
                        }
                        return None;
                    },
                }
                i = i + 1;
            }
            proof {
                assert forall|k: Seq<char>| #[trigger] h@.dom().contains(k) implies
                    out@.dom().contains(k) && substitution_settles(
                    h@[k],
                    args@,
                    process_env@,
                    limit as nat,
                ) by {
                    let p = crate::names::place_of(pairs, k);
                    crate::names::lemma_place(pairs, p);
                    assert(out@.dom().contains(pairs[p].0));
                }
                assert(out@ =~= substituted_headers(
                    crate::config::headers_view(*headers),
                    args@,
                    process_env@,
                ));
            }
        },
        None => {},
    }
    Some(out)
}

/// The method of an HTTP tool.
pub open spec fn method_of(method: Option<Seq<char>>) -> Seq<char> {
    match method {
        Some(m) => m,
        None => "GET"@,
    }
}

/// The body that an HTTP tool sends: none with GET.
pub open spec fn body_of(method: Option<Seq<char>>, body: Option<JsonView>) -> Option<JsonView> {
    if method_of(method) == "GET"@ {
        None
    } else {
        body
    }
}

/// Every template of the tool is replaced in time.
pub open spec fn tool_settles(
    tool: CustomToolView,
    args: Texts,
    process_env: Texts,
    limit: nat,
) -> bool {
    match tool {
        CustomToolView::Shell { command, .. } => substitution_settles(
            command,
            args,
            process_env,
            limit,
        ),
        CustomToolView::Http { url, method, headers, body, .. } => {
            &&& substitution_settles(url, args, process_env, limit)
            &&& headers_settle(headers, args, process_env, limit)
            &&& body_of(method, body) matches Some(b) ==> value_settles(
                b,
                args,
                process_env,
                limit,
            )
        },
    }
}

/// The call that a tool stands for with the given arguments.
pub open spec fn is_call_of(
    call: CustomCall,
    tool: CustomToolView,
    args: Texts,
    process_env: Texts,
) -> bool {
    match tool {
        CustomToolView::Shell { command, .. } => call matches CustomCall::Shell { command: c }
            && c@ == substituted(command, args, process_env),
        CustomToolView::Http { url, method, headers, body, .. } => {
            &&& call matches CustomCall::Http { method: m, url: u, headers: h, body: b }
            &&& m@ == method_of(method)
            &&& u@ == substituted(url, args, process_env)
            &&& h@ == substituted_headers(headers, args, process_env)
            &&& crate::config::opt_json(b) == (match body_of(method, body) {
                Some(v) => Some(substituted_value(v, args, process_env)),
                None => None,
            })
        },
    }
}

impl CustomTools {
    /// The custom tools of a config that are in use.
    pub fn new(configs: &NameMap<CustomToolConfig>, process_env: &NameMap<String>) -> (r: Self)
        ensures
            r.tools.pairs() == picked(configs.pairs(), in_use(process_env@)),
    {
        let ghost all = configs.pairs();
        let ghost f = in_use(process_env@);
        let mut tools: NameMap<CustomToolConfig> = NameMap::new();
        let n: usize = configs.len();
        let mut i: usize = 0;
        assert(all.take(0) =~= Seq::empty());
        while i < n
            invariant
                all == configs.pairs(),
                f == in_use(process_env@),
                n == all.len(),
                crate::names::distinct_names(all),
                i <= n,
                tools.pairs() == picked(all.take(i as int), f),
            decreases n - i,
        {
            proof {
                assert(all.take(i + 1) =~= all.take(i as int).push(all[i as int]));
                crate::picked::lemma_picked_push(all.take(i as int), all[i as int], f);
                crate::picked::lemma_picked(all.take(i as int), f);
                let so_far = picked(all.take(i as int), f);
                assert(!crate::names::has_name(so_far, all[i as int].0)) by {
                    if crate::names::has_name(so_far, all[i as int].0) {
                        let p = crate::names::place_of(so_far, all[i as int].0);
                        assert(so_far.contains(so_far[p]));
                        let t = all.take(i as int);
                        let m = choose|m: int| 0 <= m < t.len() && t[m] == so_far[p];
                        assert(all[m].0 == all[i as int].0);
                    }
                }
            }
            let name: &String = configs.name_at(i);
            let cfg: &CustomToolConfig = configs.value_at(i);
            if !is_set_aside(name.as_str()) && !is_toggled_off(cfg.env_toggle(), process_env) {
                assert(f(all[i as int]));
                tools.insert(name.clone(), cfg.duplicate());
            } else {
                assert(!f(all[i as int]));
            }
            i = i + 1;
        }
        assert(all.take(n as int) =~= all);
        CustomTools { tools }
    }

    /// The tools as clients see them.
    pub fn list(&self) -> (r: Vec<Tool>)
        ensures
            tools_view(r@) == custom_tool_views(self.tools.pairs()),
    {
        let n: usize = self.tools.len();
        let mut out: Vec<Tool> = Vec::new();
        let mut i: usize = 0;
        while i < n
            invariant
                n == self.tools.pairs().len(),
                i <= n,
                out@.len() == i,
                forall|k: int|
                    0 <= k < i ==> (#[trigger] out@[k])@ == custom_tool_view(
                        self.tools.pairs()[k],
                    ),
            decreases n - i,
        {
            let name: &String = self.tools.name_at(i);
            let cfg: &CustomToolConfig = self.tools.value_at(i);
            out.push(
                Tool {
                    name: cat(CUSTOM_TOOL_PREFIX, name.as_str()),
                    description: Some(cfg.description().to_owned()),
                    input_schema: Some(cfg.input_schema().duplicate()),
                    original_name: name.clone(),
                },
            );
            i = i + 1;
        }
        assert(tools_view(out@) =~= custom_tool_views(self.tools.pairs()));
        out
    }

    /// Whether there is a custom tool of this name, with the prefix or without.
    pub fn has(&self, prefixed_name: &str) -> (r: bool)
        ensures
            r == self.tools@.dom().contains(custom_key(prefixed_name@)),
    {
        let key = key_of(prefixed_name);
        self.tools.contains(key.as_str())
    }

    /// What to do for a call of a custom tool.
    pub fn call(
        &self,
        prefixed_name: &str,
        args: &Json,
        process_env: &NameMap<String>,
        limit: u64,
    ) -> (r: CustomCall)
        ensures
            tool_is_called(
                r,
                prefixed_name@,
                self.tools@,
                args@,
                process_env@,
                limit as nat,
            ),
    {
        let key = key_of(prefixed_name);
        let given = args_as_texts(args);
        match self.tools.get(key.as_str()) {
            None => CustomCall::Unknown(cat("unknown custom tool: ", prefixed_name)),
            Some(cfg) => match cfg {
                CustomToolConfig::Shell { command, .. } => match substitute(
                    command.as_str(),
                    &given,
                    process_env,
                    limit,
                ) {
                    Some(command) => CustomCall::Shell { command },
                    None => CustomCall::Unsettled,
                },
                CustomToolConfig::Http { url, method, headers, body, .. } => {
                    let url = match substitute(url.as_str(), &given, process_env, limit) {
                        Some(u) => u,
                        None => {
                            return CustomCall::Unsettled;
                        },
                    };
                    let headers = match substitute_headers(headers, &given, process_env, limit) {
                        Some(h) => h,
                        None => {
                            return CustomCall::Unsettled;
                        },
                    };
                    let method: String = match method {
                        Some(m) => m.clone(),
                        None => "GET".to_owned(),
                    };
                    let body: Option<Json> = if same_text(method.as_str(), "GET") {
                        None
                    } else {
                        match body {
                            Some(b) => match substitute_value(b, &given, process_env, limit) {
                                Some(v) => Some(v),
                                None => {
                                    return CustomCall::Unsettled;
                                },
                            },
                            None => None,
                        }
                    };
                    CustomCall::Http { method, url, headers, body }
                },
            },
        }
    }
}

fn key_of(prefixed_name: &str) -> (r: String)
    ensures
        r@ == custom_key(prefixed_name@),
{
    match without_prefix(prefixed_name, CUSTOM_TOOL_PREFIX) {
        Some(rest) => {
            assert(prefixed_name@.subrange(
                "custom_"@.len() as int,
                prefixed_name@.len() as int,
            ) =~= rest@);
            rest
        },
        None => prefixed_name.to_owned(),
    }
}

/// A call of a custom tool: the tool of that name is filled in, if there is one
/// and the limit allows.
pub open spec fn tool_is_called(
    r: CustomCall,
    name: Seq<char>,
    tools: Map<Seq<char>, CustomToolView>,
    args: JsonView,
    process_env: Texts,
    limit: nat,
) -> bool {
    let key = custom_key(name);
    let given = argument_texts(args);
    if !tools.dom().contains(key) {
        r matches CustomCall::Unknown(m) && m@ == "unknown custom tool: "@ + name
    } else if !tool_settles(tools[key], given, process_env, limit) {
        r is Unsettled
    } else {
        is_call_of(r, tools[key], given, process_env)
    }
}

/// The result of a tool that says `s`.
pub open spec fn text_result(s: Seq<char>) -> JsonView {
    JsonView::Object(
        no_members().insert(
            "content"@,
            JsonView::Array(
                seq![
                    JsonView::Object(
                        no_members().insert("type"@, js("text"@)).insert("text"@, js(s)),
                    ),
                ],
            ),
        ),
    )
}

/// The result of a tool that says `s`.
pub fn text_content(s: &str) -> (r: Json)
    ensures
        r@ == text_result(s@),
{
    let mut item: Vec<(String, Json)> = Vec::new();
    put(&mut item, "type", text("text"));
    put(&mut item, "text", text(s));
    let mut items: Vec<Json> = Vec::new();
    let j: Json = Json::Object(item);
    proof {
        crate::json::lemma_items_push(items@, j);
        assert(crate::json::items_view(items@) =~= Seq::empty());
        assert(Seq::<JsonView>::empty().push(j@) =~= seq![j@]);
    }
    items.push(j);
    let mut members: Vec<(String, Json)> = Vec::new();
    put(&mut members, "content", Json::Array(items));
    Json::Object(members)
}

/// The result of a shell command: what it wrote to its output, or to its error
/// output if that is nothing.
pub fn shell_result(stdout: &str, stderr: &str) -> (r: Json)
    ensures
        r@ == text_result(
            if stdout@.len() == 0 {
                stderr@
            } else {
                stdout@
            },
        ),
{
    if stdout.unicode_len() == 0 {
        text_content(stderr)
    } else {
        text_content(stdout)
    }
}

// ---------------------------------------------------------------------------
// Laws
// ---------------------------------------------------------------------------

/// The prefix in front of a custom tool's name leads back to the tool.
pub proof fn prefixed_name_finds_the_tool(key: Seq<char>)
    ensures
        custom_key("custom_"@ + key) == key,
{
    let full = "custom_"@ + key;
    let n = "custom_"@.len() as int;
    assert(full.subrange(0, n) =~= "custom_"@);
    assert(full.subrange(n, full.len() as int) =~= key);
}

/// A text without `${NAME}` is left as it is if none of its marks names an
/// argument.
pub proof fn plain_template_is_left(template: Seq<char>, args: Texts, process_env: Texts)
    requires
        next_mark(template, args, 0) is None,
        crate::expand::settled(template, crate::config::var_marks()),
    ensures
        substitution_settles(template, args, process_env, 0),
        substituted(template, args, process_env) == template,
{
    assert(template.subrange(0, template.len() as int) =~= template);
    crate::expand::expansion_of_plain(
        template,
        crate::config::var_marks(),
        args,
        process_env,
    );
}

/// Without marks that name an argument, only `${NAME}` is replaced.
pub proof fn template_without_marks(template: Seq<char>, args: Texts, process_env: Texts)
    requires
        next_mark(template, args, 0) is None,
    ensures
        substituted(template, args, process_env) == vars_replaced(template, args, process_env),
{
    assert(template.subrange(0, template.len() as int) =~= template);
}

/// An argument takes the place of its mark as it is, whatever it holds: it is
/// not searched for placeholders.
pub proof fn argument_is_taken_as_it_is(key: Seq<char>, args: Texts, process_env: Texts)
    requires
        args.dom().contains(key),
        !key.contains('}'),
    ensures
        substitution_settles("{{"@ + key + "}}"@, args, process_env, 0),
        substituted("{{"@ + key + "}}"@, args, process_env) == args[key],
{
    reveal_strlit("{{");
    reveal_strlit("}}");
    reveal_strlit("${");
    let s = "{{"@ + key + "}}"@;
    let n = s.len() as int;
    assert(s.subrange(0, 2) =~= "{{"@);
    assert(crate::text::occurs_at(s, "{{"@, 0));
    crate::text::lemma_find_from(s, "}}"@, 2);
    assert(s.subrange(n - 2, n) =~= "}}"@);
    assert(crate::text::occurs_at(s, "}}"@, n - 2));
    let b = crate::text::find_from(s, "}}"@, 2)->0;
    assert(b == n - 2) by {
        if b < n - 2 {
            assert(s.subrange(b, b + 2)[0] == '}');
            assert(s[b] == key[b - 2]);
            assert(key.contains(key[b - 2]));
        }
    }
    assert(crate::expand::key_at(s, "{{"@, (0, b)) =~= key);
    assert(next_mark(s, args, 0) == Some((0int, b)));
    let empty = Seq::<char>::empty();
    assert(s.subrange(0, 0) =~= empty);
    assert(s.subrange(n, n) =~= empty);
    assert(crate::expand::settled(empty, crate::config::var_marks()));
    crate::expand::expansion_of_plain(empty, crate::config::var_marks(), args, process_env);
    assert(next_mark(s, args, n) is None);
    reveal_with_fuel(substituted_from, 2);
    reveal_with_fuel(settles_from, 2);
    assert(substituted(s, args, process_env) =~= args[key]);
}

proof fn lemma_no_mark(s: Seq<char>, args: Texts, from: int)
    requires
        0 <= from,
        forall|k: Seq<char>| #[trigger]
            args.dom().contains(k) ==> !crate::text::contains_pat(s, "{{"@ + k + "}}"@),
    ensures
        next_mark(s, args, from) is None,
    decreases s.len() - from,
{
    reveal_strlit("{{");
    reveal_strlit("}}");
    crate::text::lemma_find_from(s, "{{"@, from);
    if crate::text::find_from(s, "{{"@, from) is Some {
        let a = crate::text::find_from(s, "{{"@, from)->0;
        crate::text::lemma_find_from(s, "}}"@, a + 2);
        if crate::text::find_from(s, "}}"@, a + 2) is Some {
            let b = crate::text::find_from(s, "}}"@, a + 2)->0;
            let k = s.subrange(a + 2, b);
            if args.dom().contains(k) {
                assert(s.subrange(a, b + 2) =~= "{{"@ + k + "}}"@);
                assert(crate::text::occurs_at(s, "{{"@ + k + "}}"@, a));
            }
        }
        if a < s.len() {
            lemma_no_mark(s, args, a + 1);
        }
    }
}

proof fn lemma_mark_shift(s: Seq<char>, t: Seq<char>, args: Texts, k: int, from: int)
    requires
        0 <= k <= s.len(),
        0 <= from,
        s.subrange(k, s.len() as int) == t,
    ensures
        next_mark(s, args, k + from) == (match next_mark(t, args, from) {
            Some(at) => Some((at.0 + k, at.1 + k)),
            None => None,
        }),
        next_mark(t, args, from) matches Some(at) ==> from <= at.0 && at.0 + 2 <= at.1 && at.1 + 2
            <= t.len() && t.subrange(at.0 + 2, at.1) == s.subrange(k + at.0 + 2, k + at.1),
    decreases t.len() - from,
{
    reveal_strlit("{{");
    reveal_strlit("}}");
    assert(t.len() == s.len() - k);
    crate::text::lemma_find_shift(s, t, "{{"@, k, from);
    crate::text::lemma_find_from(t, "{{"@, from);
    if crate::text::find_from(t, "{{"@, from) is Some {
        let a = crate::text::find_from(t, "{{"@, from)->0;
        crate::text::lemma_find_shift(s, t, "}}"@, k, a + 2);
        crate::text::lemma_find_from(t, "}}"@, a + 2);
        if crate::text::find_from(t, "}}"@, a + 2) is Some {
            let b = crate::text::find_from(t, "}}"@, a + 2)->0;
            assert(t.subrange(a + 2, b) =~= s.subrange(k + a + 2, k + b));
            lemma_mark_shift(s, t, args, k, a + 1);
        }
    }
}

proof fn lemma_substituted_shift(
    s: Seq<char>,
    t: Seq<char>,
    args: Texts,
    process_env: Texts,
    k: int,
    from: int,
)
    requires
        0 <= k <= s.len(),
        0 <= from <= t.len(),
        s.subrange(k, s.len() as int) == t,
    ensures
        substituted_from(s, args, process_env, k + from) == substituted_from(
            t,
            args,
            process_env,
            from,
        ),
    decreases t.len() - from,
{
    assert(t.len() == s.len() - k);
    lemma_mark_shift(s, t, args, k, from);
    reveal_strlit("{{");
    match next_mark(t, args, from) {
        Some(at) => {
            assert(t.subrange(from, at.0) =~= s.subrange(k + from, k + at.0));
            lemma_substituted_shift(s, t, args, process_env, k, at.1 + 2);
        },
        None => {
            assert(t.subrange(from, t.len() as int) =~= s.subrange(k + from, s.len() as int));
        },
    }
}

/// The mark of an argument is replaced by the argument as it is; what stands
/// before it and behind it is filled in by itself.
pub proof fn each_mark_takes_its_argument(
    head: Seq<char>,
    key: Seq<char>,
    tail: Seq<char>,
    args: Texts,
    process_env: Texts,
)
    requires
        !head.contains('{'),
        !key.contains('}'),
        args.dom().contains(key),
    ensures
        substituted(head + "{{"@ + key + "}}"@ + tail, args, process_env) == head + args[key]
            + substituted(tail, args, process_env),
{
    reveal_strlit("{{");
    reveal_strlit("}}");
    reveal_strlit("${");
    let s = head + "{{"@ + key + "}}"@ + tail;
    let rest = key + "}}"@ + tail;
    let h = head.len() as int;
    assert(s =~= head + "{{"@ + rest);
    assert forall|j: int| 0 <= j < h implies !crate::text::occurs_at(s, "{{"@, j) by {
        if crate::text::occurs_at(s, "{{"@, j) {
            assert(s.subrange(j, j + 2)[0] == s[j]);
            assert(head.contains(head[j]));
        }
    }
    crate::text::lemma_found_behind(head, "{{"@, rest);
    let b = h + 2 + key.len();
    crate::text::lemma_find_from(s, "}}"@, h + 2);
    assert(s.subrange(b, b + 2) =~= "}}"@);
    assert(crate::text::occurs_at(s, "}}"@, b));
    let found = crate::text::find_from(s, "}}"@, h + 2)->0;
    assert(found == b) by {
        if found < b {
            assert(s.subrange(found, found + 2)[0] == '}');
            assert(s[found] == key[found - h - 2]);
            assert(key.contains(key[found - h - 2]));
        }
    }
    assert(s.subrange(h + 2, b) =~= key);
    assert(s.subrange(0, h) =~= head);
    assert(next_mark(s, args, 0) == Some((h, b)));
    assert(s.subrange(b + 2, s.len() as int) =~= tail);
    lemma_substituted_shift(s, tail, args, process_env, b + 2, 0);
    assert(!crate::text::contains_pat(head, "${"@)) by {
        if crate::text::contains_pat(head, "${"@) {
            let j = choose|j: int| crate::text::occurs_at(head, "${"@, j);
            assert(head.subrange(j, j + 2)[1] == '{');
            assert(head.contains(head[j + 1]));
        }
    }
    crate::config::text_without_references_is_left(head, args, process_env);
}

/// A reference `${name}` in a text without marks of arguments takes the value of
/// the argument of that name, else of the process environment, else nothing.
pub proof fn template_reference_takes_its_value(
    head: Seq<char>,
    name: Seq<char>,
    tail: Seq<char>,
    args: Texts,
    process_env: Texts,
    value: Seq<char>,
)
    requires
        forall|k: Seq<char>| #[trigger]
            args.dom().contains(k) ==> !crate::text::contains_pat(
                head + "${"@ + name + "}"@ + tail,
                "{{"@ + k + "}}"@,
            ),
        !crate::text::contains_pat(head, "${"@),
        !name.contains('}'),
        args.dom().contains(name) ==> value == args[name],
        !args.dom().contains(name) && process_env.dom().contains(name) ==> value
            == process_env[name],
        !args.dom().contains(name) && !process_env.dom().contains(name) ==> value.len() == 0,
        !crate::text::contains_pat(head + value + tail, "${"@),
    ensures
        substituted(head + "${"@ + name + "}"@ + tail, args, process_env) == head + value + tail,
        substitution_settles(head + "${"@ + name + "}"@ + tail, args, process_env, 1),
{
    let s = head + "${"@ + name + "}"@ + tail;
    lemma_no_mark(s, args, 0);
    assert(s.subrange(0, s.len() as int) =~= s);
    crate::config::one_reference_is_replaced(head, name, tail, args, process_env, value);
}

/// A text without marks of arguments and without `${` is left as it is.
pub proof fn plain_text_is_left(s: Seq<char>, args: Texts, process_env: Texts)
    requires
        forall|k: Seq<char>| #[trigger]
            args.dom().contains(k) ==> !crate::text::contains_pat(s, "{{"@ + k + "}}"@),
        !crate::text::contains_pat(s, "${"@),
    ensures
        substituted(s, args, process_env) == s,
        substitution_settles(s, args, process_env, 0),
{
    lemma_no_mark(s, args, 0);
    assert(s.subrange(0, s.len() as int) =~= s);
    crate::config::text_without_references_is_left(s, args, process_env);
}

/// The request of an HTTP tool goes to its URL with the references of the URL
/// replaced by what the arguments or the process environment bind them to.
pub proof fn request_url_takes_the_environment(
    call: CustomCall,
    tool: CustomToolView,
    args: Texts,
    process_env: Texts,
    head: Seq<char>,
    name: Seq<char>,
    tail: Seq<char>,
    value: Seq<char>,
)
    requires
        is_call_of(call, tool, args, process_env),
        tool matches CustomToolView::Http { url, .. } && url == head + "${"@ + name + "}"@ + tail,
        forall|k: Seq<char>| #[trigger]
            args.dom().contains(k) ==> !crate::text::contains_pat(
                head + "${"@ + name + "}"@ + tail,
                "{{"@ + k + "}}"@,
            ),
        !crate::text::contains_pat(head, "${"@),
        !name.contains('}'),
        args.dom().contains(name) ==> value == args[name],
        !args.dom().contains(name) && process_env.dom().contains(name) ==> value
            == process_env[name],
        !args.dom().contains(name) && !process_env.dom().contains(name) ==> value.len() == 0,
        !crate::text::contains_pat(head + value + tail, "${"@),
    ensures
        call matches CustomCall::Http { url, .. } && url@ == head + value + tail,
{
    template_reference_takes_its_value(head, name, tail, args, process_env, value);
}

/// The mark of an argument in the URL of an HTTP tool takes the argument.
pub proof fn request_url_takes_the_argument(
    call: CustomCall,
    tool: CustomToolView,
    args: Texts,
    process_env: Texts,
    head: Seq<char>,
    key: Seq<char>,
    tail: Seq<char>,
)
    requires
        is_call_of(call, tool, args, process_env),
        tool matches CustomToolView::Http { url, .. } && url == head + "{{"@ + key + "}}"@ + tail,
        !head.contains('{'),
        !key.contains('}'),
        args.dom().contains(key),
        forall|k: Seq<char>| #[trigger]
            args.dom().contains(k) ==> !crate::text::contains_pat(tail, "{{"@ + k + "}}"@),
        !crate::text::contains_pat(tail, "${"@),
    ensures
        call matches CustomCall::Http { url, .. } && url@ == head + args[key] + tail,
{
    each_mark_takes_its_argument(head, key, tail, args, process_env);
    plain_text_is_left(tail, args, process_env);
}

/// The command of a shell tool takes the environment in the same way.
pub proof fn shell_command_takes_the_environment(
    call: CustomCall,
    tool: CustomToolView,
    args: Texts,
    process_env: Texts,
    head: Seq<char>,
    name: Seq<char>,
    tail: Seq<char>,
    value: Seq<char>,
)
    requires
        is_call_of(call, tool, args, process_env),
        tool matches CustomToolView::Shell { command, .. } && command == head + "${"@ + name
            + "}"@ + tail,
        forall|k: Seq<char>| #[trigger]
            args.dom().contains(k) ==> !crate::text::contains_pat(
                head + "${"@ + name + "}"@ + tail,
                "{{"@ + k + "}}"@,
            ),
        !crate::text::contains_pat(head, "${"@),
        !name.contains('}'),
        args.dom().contains(name) ==> value == args[name],
        !args.dom().contains(name) && process_env.dom().contains(name) ==> value
            == process_env[name],
        !args.dom().contains(name) && !process_env.dom().contains(name) ==> value.len() == 0,
        !crate::text::contains_pat(head + value + tail, "${"@),
    ensures
        call matches CustomCall::Shell { command } && command@ == head + value + tail,
{
    template_reference_takes_its_value(head, name, tail, args, process_env, value);
}

/// The mark of an argument in the command of a shell tool takes the argument.
pub proof fn shell_command_takes_the_argument(
    call: CustomCall,
    tool: CustomToolView,
    args: Texts,
    process_env: Texts,
    head: Seq<char>,
    key: Seq<char>,
    tail: Seq<char>,
)
    requires
        is_call_of(call, tool, args, process_env),
        tool matches CustomToolView::Shell { command, .. } && command == head + "{{"@ + key
            + "}}"@ + tail,
        !head.contains('{'),
        !key.contains('}'),
        args.dom().contains(key),
        forall|k: Seq<char>| #[trigger]
            args.dom().contains(k) ==> !crate::text::contains_pat(tail, "{{"@ + k + "}}"@),
        !crate::text::contains_pat(tail, "${"@),
    ensures
        call matches CustomCall::Shell { command } && command@ == head + args[key] + tail,
{
    each_mark_takes_its_argument(head, key, tail, args, process_env);
    plain_text_is_left(tail, args, process_env);
}

/// The headers of the request are those of the tool, each taking the
/// environment in the same way; without headers it has none.
pub proof fn request_headers_take_the_environment(
    call: CustomCall,
    tool: CustomToolView,
    args: Texts,
    process_env: Texts,
    header: Seq<char>,
    head: Seq<char>,
    name: Seq<char>,
    tail: Seq<char>,
    value: Seq<char>,
)
    requires
        is_call_of(call, tool, args, process_env),
        tool matches CustomToolView::Http { headers: Some(h), .. } && h.dom().contains(header)
            && h[header] == head + "${"@ + name + "}"@ + tail,
        forall|k: Seq<char>| #[trigger]
            args.dom().contains(k) ==> !crate::text::contains_pat(
                head + "${"@ + name + "}"@ + tail,
                "{{"@ + k + "}}"@,
            ),
        !crate::text::contains_pat(head, "${"@),
        !name.contains('}'),
        args.dom().contains(name) ==> value == args[name],
        !args.dom().contains(name) && process_env.dom().contains(name) ==> value
            == process_env[name],
        !args.dom().contains(name) && !process_env.dom().contains(name) ==> value.len() == 0,
        !crate::text::contains_pat(head + value + tail, "${"@),
    ensures
        call matches CustomCall::Http { headers, .. } && headers@.dom().contains(header)
            && headers@[header] == head + value + tail,
{
    template_reference_takes_its_value(head, name, tail, args, process_env, value);
}

/// The request has the headers of the tool and no others.
pub proof fn request_has_the_headers_of_the_tool(
    call: CustomCall,
    tool: CustomToolView,
    args: Texts,
    process_env: Texts,
    header: Seq<char>,
)
    requires
        is_call_of(call, tool, args, process_env),
        tool is Http,
    ensures
        call matches CustomCall::Http { headers, .. } && headers@.dom().contains(header) == (
        tool matches CustomToolView::Http { headers: Some(h), .. } && h.dom().contains(header)),
{
}

/// The request has the method of the tool, or GET; a GET has no body, another
/// request has one if the tool has one.
pub proof fn request_has_the_method_of_the_tool(
    call: CustomCall,
    tool: CustomToolView,
    args: Texts,
    process_env: Texts,
)
    requires
        is_call_of(call, tool, args, process_env),
        tool is Http,
    ensures
        call matches CustomCall::Http { method, body, .. } && {
            &&& tool matches CustomToolView::Http { method: Some(m), .. } ==> method@ == m
            &&& tool matches CustomToolView::Http { method: None, .. } ==> method@ == "GET"@
            &&& method@ == "GET"@ ==> body is None
            &&& method@ != "GET"@ ==> body is Some == (tool matches CustomToolView::Http {
                body: Some(_),
                ..
            })
        },
{
}

/// A text in a body is filled in like any other; what is no text stays.
pub proof fn body_texts_are_filled_in(
    items: Seq<JsonView>,
    members: Map<Seq<char>, JsonView>,
    s: Seq<char>,
    n: int,
    b: bool,
    args: Texts,
    process_env: Texts,
)
    ensures
        substituted_value(JsonView::Str(s), args, process_env) == JsonView::Str(
            substituted(s, args, process_env),
        ),
        substituted_value(JsonView::Int(n), args, process_env) == JsonView::Int(n),
        substituted_value(JsonView::Bool(b), args, process_env) == JsonView::Bool(b),
        substituted_value(JsonView::Decimal(s), args, process_env) == JsonView::Decimal(s),
        substituted_value(JsonView::Null, args, process_env) == JsonView::Null,
        substituted_value(JsonView::Array(items), args, process_env) matches JsonView::Array(r)
            && r.len() == items.len() && forall|i: int|
            0 <= i < items.len() ==> #[trigger] r[i] == substituted_value(
                items[i],
                args,
                process_env,
            ),
        substituted_value(JsonView::Object(members), args, process_env) matches JsonView::Object(r)
            && r.dom() == members.dom() && forall|k: Seq<char>| #[trigger]
            members.dom().contains(k) ==> r[k] == substituted_value(
                members[k],
                args,
                process_env,
            ),
{
}

/// The body of a request that is no GET is that of the tool, filled in.
pub proof fn request_body_is_filled_in(
    call: CustomCall,
    tool: CustomToolView,
    args: Texts,
    process_env: Texts,
)
    requires
        is_call_of(call, tool, args, process_env),
        tool matches CustomToolView::Http { method: Some(m), body: Some(_), .. } && m != "GET"@,
    ensures
        call matches CustomCall::Http { body: Some(b), .. } && (
        tool matches CustomToolView::Http { body: Some(v), .. } && b@ == substituted_value(
            v,
            args,
            process_env,
        )),
{
}

/// The texts of the arguments: a text is taken as it is, anything else as
/// compact JSON; what is no object gives none.
pub proof fn arguments_are_taken_as_texts(args: JsonView, key: Seq<char>)
    ensures
        argument_texts(args).dom().contains(key) == (args matches JsonView::Object(m)
            && m.dom().contains(key)),
        args matches JsonView::Object(m) ==> (m.dom().contains(key) ==> {
            &&& m[key] matches JsonView::Str(s) ==> argument_texts(args)[key] == s
            &&& !(m[key] is Str) ==> argument_texts(args)[key] == crate::json::compact_text(m[key])
        }),
{
}

/// A custom tool is shown under its name with `custom_` before it, and that
/// name calls it; a name without the prefix is taken as it is.
pub proof fn custom_tools_are_prefixed(p: (Seq<char>, CustomToolView))
    ensures
        custom_tool_view(p).name == "custom_"@ + p.0,
        custom_tool_view(p).original_name == p.0,
        custom_key(custom_tool_view(p).name) == p.0,
        custom_tool_view(p).description == Some(p.1.description()),
        custom_tool_view(p).input_schema == Some(p.1.input_schema()),
        !crate::text::begins(p.0, "custom_"@) ==> custom_key(p.0) == p.0,
{
    prefixed_name_finds_the_tool(p.0);
}

/// A custom tool is in use unless its name begins with `_` or its toggle names a
/// variable that says "off".
pub proof fn tools_set_aside_are_not_in_use(
    name: Seq<char>,
    tool: CustomToolView,
    process_env: Texts,
)
    ensures
        in_use(process_env)((name, tool)) == (!(name.len() > 0 && name[0] == '_') && !(
        tool.env_toggle() is Some && process_env.dom().contains(tool.env_toggle()->0)
            && crate::config::says_off(process_env[tool.env_toggle()->0]))),
{
}

/// The result of a tool is one text.
pub proof fn result_is_one_text(s: Seq<char>)
    ensures
        crate::json::member_of(text_result(s), "content"@) matches Some(JsonView::Array(items))
            && items.len() == 1 && crate::json::member_of(items[0], "type"@) == Some(
            JsonView::Str("text"@),
        ) && crate::json::member_of(items[0], "text"@) == Some(JsonView::Str(s)),
{
    reveal_strlit("type");
    reveal_strlit("text");
    assert("type"@[1] == 'y' && "text"@[1] == 'e');
}

proof fn lemma_settles_more(s: Seq<char>, args: Texts, process_env: Texts, n: nat, m: nat)
    requires
        n <= m,
        next_mark(s, args, 0) is None,
        substitution_settles(s, args, process_env, n),
    ensures
        substitution_settles(s, args, process_env, m),
{
    crate::expand::lemma_settled_stays(
        s.subrange(0, s.len() as int),
        crate::config::var_marks(),
        args,
        process_env,
        n,
        m,
    );
}

/// A call of an HTTP tool whose URL refers to a variable of the process
/// environment, which no argument is named after, is a request to the URL with
/// that variable in its place.
pub proof fn http_call_goes_to_the_filled_in_url(
    r: CustomCall,
    key: Seq<char>,
    tools: Map<Seq<char>, CustomToolView>,
    args: JsonView,
    process_env: Texts,
    limit: nat,
    head: Seq<char>,
    name: Seq<char>,
    tail: Seq<char>,
)
    requires
        limit >= 1,
        tool_is_called(r, "custom_"@ + key, tools, args, process_env, limit),
        tools.dom().contains(key),
        tools[key] matches CustomToolView::Http { url, headers: None, body: None, .. } && url
            == head + "${"@ + name + "}"@ + tail,
        args matches JsonView::Object(m) ==> !m.dom().contains(name) && forall|k: Seq<char>|
            #[trigger]
            m.dom().contains(k) ==> !crate::text::contains_pat(
                head + "${"@ + name + "}"@ + tail,
                "{{"@ + k + "}}"@,
            ),
        !crate::text::contains_pat(head, "${"@),
        !name.contains('}'),
        process_env.dom().contains(name),
        !crate::text::contains_pat(head + process_env[name] + tail, "${"@),
    ensures
        r matches CustomCall::Http { url, .. } && url@ == head + process_env[name] + tail,
{
    prefixed_name_finds_the_tool(key);
    let given = argument_texts(args);
    let url = head + "${"@ + name + "}"@ + tail;
    assert forall|k: Seq<char>| #[trigger] given.dom().contains(k) implies
        !crate::text::contains_pat(url, "{{"@ + k + "}}"@) by {
        arguments_are_taken_as_texts(args, k);
    }
    arguments_are_taken_as_texts(args, name);
    template_reference_takes_its_value(
        head,
        name,
        tail,
        given,
        process_env,
        process_env[name],
    );
    lemma_no_mark(url, given, 0);
    lemma_settles_more(url, given, process_env, 1, limit);
    assert(tool_settles(tools[key], given, process_env, limit));
}

/// A call of a shell tool runs its command, with the argument in place of its
/// mark as it was sent.
pub proof fn shell_call_runs_the_filled_in_command(
    r: CustomCall,
    key: Seq<char>,
    tools: Map<Seq<char>, CustomToolView>,
    members: Map<Seq<char>, JsonView>,
    process_env: Texts,
    limit: nat,
    head: Seq<char>,
    name: Seq<char>,
    tail: Seq<char>,
    value: Seq<char>,
)
    requires
        tool_is_called(
            r,
            "custom_"@ + key,
            tools,
            JsonView::Object(members),
            process_env,
            limit,
        ),
        r !is Unsettled,
        tools.dom().contains(key),
        tools[key] matches CustomToolView::Shell { command, .. } && command == head + "{{"@ + name
            + "}}"@ + tail,
        members.dom().contains(name),
        members[name] == JsonView::Str(value),
        !head.contains('{'),
        !name.contains('}'),
        forall|k: Seq<char>| #[trigger]
            members.dom().contains(k) ==> !crate::text::contains_pat(tail, "{{"@ + k + "}}"@),
        !crate::text::contains_pat(tail, "${"@),
    ensures
        r matches CustomCall::Shell { command } && command@ == head + value + tail,
{
    prefixed_name_finds_the_tool(key);
    let args = JsonView::Object(members);
    let given = argument_texts(args);
    assert forall|k: Seq<char>| #[trigger] given.dom().contains(k) implies
        !crate::text::contains_pat(tail, "{{"@ + k + "}}"@) by {
        arguments_are_taken_as_texts(args, k);
    }
    arguments_are_taken_as_texts(args, name);
    shell_command_takes_the_argument(r, tools[key], given, process_env, head, name, tail);
}

/// A name that no tool has is answered as unknown, and only such a name.
pub proof fn unknown_tools_are_answered_as_such(
    r: CustomCall,
    name: Seq<char>,
    tools: Map<Seq<char>, CustomToolView>,
    args: JsonView,
    process_env: Texts,
    limit: nat,
)
    requires
        tool_is_called(r, name, tools, args, process_env, limit),
    ensures
        r is Unknown == !tools.dom().contains(custom_key(name)),
        r matches CustomCall::Unknown(m) ==> crate::text::contains_pat(m@, name),
{
    let none = Seq::<char>::empty();
    let p = "unknown custom tool: "@;
    assert(p + name =~= p + name + none);
    crate::text::lemma_part_stands(p, name, none);
}

/// A tool whose texts hold neither marks of arguments nor references is called
/// as it is, whatever the limit.
pub proof fn plain_tools_are_called_as_they_are(
    tool: CustomToolView,
    args: Texts,
    process_env: Texts,
    limit: nat,
    key: Seq<char>,
)
    requires
        args.dom() == Set::<Seq<char>>::empty(),
        tool matches CustomToolView::Shell { command, .. } ==> !crate::text::contains_pat(
            command,
            "${"@,
        ),
        tool matches CustomToolView::Http { url, headers, body, .. } ==> {
            &&& !crate::text::contains_pat(url, "${"@)
            &&& body is None
            &&& headers matches Some(h) ==> forall|k: Seq<char>| #[trigger]
                h.dom().contains(k) ==> !crate::text::contains_pat(h[k], "${"@)
        },
    ensures
        tool_settles(tool, args, process_env, limit),
        tool matches CustomToolView::Http { headers: Some(h), .. } ==> (h.dom().contains(key)
            ==> substituted_headers(Some(h), args, process_env)[key] == h[key]),
{
    match tool {
        CustomToolView::Shell { command, .. } => {
            plain_text_is_left(command, args, process_env);
            lemma_no_mark(command, args, 0);
            lemma_settles_more(command, args, process_env, 0, limit);
        },
        CustomToolView::Http { url, headers, .. } => {
            plain_text_is_left(url, args, process_env);
            lemma_no_mark(url, args, 0);
            lemma_settles_more(url, args, process_env, 0, limit);
            match headers {
                Some(h) => {
                    assert forall|k: Seq<char>| #[trigger]
                        h.dom().contains(k) implies substitution_settles(
                        h[k],
                        args,
                        process_env,
                        limit,
                    ) by {
                        plain_text_is_left(h[k], args, process_env);
                        lemma_no_mark(h[k], args, 0);
                        lemma_settles_more(h[k], args, process_env, 0, limit);
                    }
                    if h.dom().contains(key) {
                        plain_text_is_left(h[key], args, process_env);
                    }
                },
                None => {},
            }
        },
    }
}

/// The one reference of a header is filled in by one replacement, from an
/// argument or from the process environment.
pub proof fn bound_headers_settle(
    header: Seq<char>,
    head: Seq<char>,
    name: Seq<char>,
    tail: Seq<char>,
    args: Texts,
    process_env: Texts,
    value: Seq<char>,
    limit: nat,
)
    requires
        limit >= 1,
        forall|k: Seq<char>| #[trigger]
            args.dom().contains(k) ==> !crate::text::contains_pat(
                head + "${"@ + name + "}"@ + tail,
                "{{"@ + k + "}}"@,
            ),
        !crate::text::contains_pat(head, "${"@),
        !name.contains('}'),
        args.dom().contains(name) ==> value == args[name],
        !args.dom().contains(name) && process_env.dom().contains(name) ==> value
            == process_env[name],
        !args.dom().contains(name) && !process_env.dom().contains(name) ==> value.len() == 0,
        !crate::text::contains_pat(head + value + tail, "${"@),
    ensures
        headers_settle(
            Some(Map::empty().insert(header, head + "${"@ + name + "}"@ + tail)),
            args,
            process_env,
            limit,
        ),
        value_settles(
            JsonView::Str(head + "${"@ + name + "}"@ + tail),
            args,
            process_env,
            limit,
        ),
{
    let s = head + "${"@ + name + "}"@ + tail;
    template_reference_takes_its_value(head, name, tail, args, process_env, value);
    lemma_no_mark(s, args, 0);
    lemma_settles_more(s, args, process_env, 1, limit);
}

/// A reference inside a body, in a list or in a member, is filled in by one
/// replacement too.
pub proof fn bound_bodies_settle(
    member: Seq<char>,
    head: Seq<char>,
    name: Seq<char>,
    tail: Seq<char>,
    args: Texts,
    process_env: Texts,
    value: Seq<char>,
    limit: nat,
)
    requires
        limit >= 1,
        forall|k: Seq<char>| #[trigger]
            args.dom().contains(k) ==> !crate::text::contains_pat(
                head + "${"@ + name + "}"@ + tail,
                "{{"@ + k + "}}"@,
            ),
        !crate::text::contains_pat(head, "${"@),
        !name.contains('}'),
        args.dom().contains(name) ==> value == args[name],
        !args.dom().contains(name) && process_env.dom().contains(name) ==> value
            == process_env[name],
        !args.dom().contains(name) && !process_env.dom().contains(name) ==> value.len() == 0,
        !crate::text::contains_pat(head + value + tail, "${"@),
    ensures
        value_settles(
            JsonView::Object(
                Map::empty().insert(member, JsonView::Str(head + "${"@ + name + "}"@ + tail)),
            ),
            args,
            process_env,
            limit,
        ),
        value_settles(
            JsonView::Array(seq![JsonView::Str(head + "${"@ + name + "}"@ + tail)]),
            args,
            process_env,
            limit,
        ),
        substituted_value(
            JsonView::Array(seq![JsonView::Str(head + "${"@ + name + "}"@ + tail)]),
            args,
            process_env,
        ) == JsonView::Array(seq![JsonView::Str(head + value + tail)]),
{
    bound_headers_settle(member, head, name, tail, args, process_env, value, limit);
    template_reference_takes_its_value(head, name, tail, args, process_env, value);
    let s = JsonView::Str(head + "${"@ + name + "}"@ + tail);
    let items = seq![s];
    assert(items[0] == s);
    assert(value_settles(s, args, process_env, limit));
    reveal_with_fuel(substituted_value, 3);
    assert(substituted_value(s, args, process_env) == JsonView::Str(head + value + tail));
    let r = substituted_value(JsonView::Array(items), args, process_env);
    assert(r->Array_0.len() == 1);
    assert(r->Array_0[0] == substituted_value(items[0], args, process_env));
    assert(r->Array_0 =~= seq![JsonView::Str(head + value + tail)]);
}

} // verus!
