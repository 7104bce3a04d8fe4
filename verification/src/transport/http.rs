//! The HTTP transport: sessions, what a request leads to, and what is sent
//! back.
use vstd::prelude::*;

use crate::backend::Tool;
use crate::json::{Json, JsonView, js, no_members, put, text};
use crate::jsonrpc::{RpcError, codes, reply};
use crate::names::NameMap;
use crate::picked::picked;
use crate::pool::BackendProgress;
use crate::server::{RequestParts, list_result, request_parts};
use crate::text::{cat, same_text, split_at_char, trim};
use crate::transport::{content_types, decode_env_header, headers};

verus! {

/// How long a session may idle: thirty minutes.
pub const SESSION_TTL_MILLIS: u64 = 1800000;

/// How many sessions there may be.
pub const MAX_SESSIONS: usize = 100;

// ---------------------------------------------------------------------------
// Client context
// ---------------------------------------------------------------------------

/// What a client's headers say.
pub struct ClientContext {
    /// Variables that the client overrides.
    pub env_overrides: NameMap<String>,
    /// The servers that the client asks for; all if empty.
    pub servers: Vec<String>,
}

/// The parts without white space around them, without the empty ones.
pub open spec fn names_in(parts: Seq<Seq<char>>) -> Seq<Seq<char>>
    decreases parts.len(),
{
    if parts.len() == 0 {
        Seq::empty()
    } else {
        let before = names_in(parts.drop_last());
        let name = crate::text::trimmed(parts.last());
        if name.len() == 0 {
            before
        } else {
            before.push(name)
        }
    }
}

/// The servers that a header names, separated by commas.
pub fn split_servers(header: &str) -> (r: Vec<String>)
    ensures
        crate::text::texts(r@) == names_in(crate::text::pieces(header@, ',')),
{
    let parts = split_at_char(header, ',');
    let ghost all = crate::text::texts(parts@);
    let mut out: Vec<String> = Vec::new();
    let mut i: usize = 0;
    assert(crate::text::texts(out@) =~= names_in(all.take(0)));
    while i < parts.len()
        invariant
            all == crate::text::texts(parts@),
            i <= parts@.len(),
            crate::text::texts(out@) == names_in(all.take(i as int)),
        decreases parts@.len() - i,
    {
        assert(all.take(i + 1).drop_last() =~= all.take(i as int));
        let name = trim(parts[i].as_str());
        if name.as_str().unicode_len() > 0 {
            let ghost before = out@;
            let ghost added = name@;
            out.push(name);
            assert(crate::text::texts(out@) =~= crate::text::texts(before).push(added));
        }
        i = i + 1;
    }
    assert(all.take(all.len() as int) =~= all);
    out
}

impl ClientContext {
    /// Reads the overrides header and the servers header.
    pub fn from_headers(env: Option<&str>, servers: Option<&str>) -> (r: Self)
        ensures
            r.env_overrides@ == (match env {
                Some(raw) => crate::transport::header_env(raw@),
                None => Map::empty(),
            }),
            crate::text::texts(r.servers@) == (match servers {
                Some(s) => names_in(crate::text::pieces(s@, ',')),
                None => Seq::empty(),
            }),
    {
        let env_overrides: NameMap<String> = match env {
            Some(raw) => decode_env_header(raw),
            None => NameMap::new(),
        };
        let servers: Vec<String> = match servers {
            Some(s) => split_servers(s),
            None => Vec::new(),
        };
        assert(servers@.len() == 0 ==> crate::text::texts(servers@) =~= Seq::empty());
        ClientContext { env_overrides, servers }
    }
}

// ---------------------------------------------------------------------------
// Sessions
// ---------------------------------------------------------------------------

/// A hexadecimal digit in lower case.
pub open spec fn is_hex(c: char) -> bool {
    ('0' <= c && c <= '9') || ('a' <= c && c <= 'f')
}

/// The text is a random (version 4) UUID in its usual form.
pub open spec fn uuid_text(s: Seq<char>) -> bool {
    &&& s.len() == 36
    &&& forall|i: int|
        0 <= i < 36 ==> if i == 8 || i == 13 || i == 18 || i == 23 {
            #[trigger] s[i] == '-'
        } else {
            is_hex(s[i])
        }
    &&& s[14] == '4'
    &&& s[19] == '8' || s[19] == '9' || s[19] == 'a' || s[19] == 'b'
}

/// `uuid::Uuid::new_v4` and its `to_string`: a random UUID in its hyphenated
/// form. Which one it is rests on chance, and nothing is claimed of it.
#[verifier::external_body]
fn new_session_id() -> (r: String)
    ensures
        uuid_text(r@),
{
    uuid::Uuid::new_v4().to_string()
}

/// The sessions, each with the time of its last activity in milliseconds.
pub struct SessionTable {
    pub map: NameMap<u64>,
}

/// What becomes of a request that may name a session.
#[derive(Debug)]
pub enum Admission {
    /// The session is known.
    Known(String),
    /// A new session was opened.
    Opened(String),
    /// The request names a session that there is not.
    Unknown,
    /// There are too many sessions.
    TooMany,
}

/// The session has been idle for longer than a session may.
pub open spec fn expired_at(now_ms: u64) -> spec_fn((Seq<char>, u64)) -> bool {
    |s: (Seq<char>, u64)| now_ms - s.1 > 1800000
}

/// The session has not expired.
pub open spec fn live_at(now_ms: u64) -> spec_fn((Seq<char>, u64)) -> bool {
    |s: (Seq<char>, u64)| !expired_at(now_ms)(s)
}

/// The names of a list of names and times.
pub open spec fn ids(s: Seq<(Seq<char>, u64)>) -> Seq<Seq<char>> {
    Seq::new(s.len(), |i: int| s[i].0)
}

/// What an admission does to the sessions.
pub open spec fn admitted(
    r: Admission,
    given: Option<Seq<char>>,
    fresh: Seq<char>,
    before: Seq<(Seq<char>, u64)>,
    after: Seq<(Seq<char>, u64)>,
    now_ms: u64,
) -> bool {
    match given {
        Some(id) => if crate::names::has_name(before, id) {
            &&& (r matches Admission::Known(k) && k@ == id)
            &&& after == crate::names::bound(before, id, now_ms)
        } else {
            r is Unknown && after == before
        },
        None => if before.len() >= 100 {
            r is TooMany && after == before
        } else {
            &&& (r matches Admission::Opened(k) && k@ == fresh)
            &&& after == crate::names::bound(before, fresh, now_ms)
        },
    }
}

/// The session that the headers name: in the header, or under its other name.
pub fn named_session(header: Option<&str>, alias: Option<&str>) -> (r: Option<String>)
    ensures
        crate::text::opt_text(r) == (if header is Some {
            crate::text::opt_slice(header)
        } else {
            crate::text::opt_slice(alias)
        }),
{
    match header {
        Some(id) => Some(id.to_owned()),
        None => match alias {
            Some(id) => Some(id.to_owned()),
            None => None,
        },
    }
}

impl SessionTable {
    /// No sessions.
    pub fn new() -> (r: Self)
        ensures
            r.map.pairs().len() == 0,
    {
        SessionTable { map: NameMap::new() }
    }

    /// How many sessions there are.
    pub fn len(&self) -> (r: usize)
        ensures
            r == self.map.pairs().len(),
    {
        self.map.len()
    }

    /// Admits a request. One that names a session must name a known one, which
    /// counts as activity; one that names none opens the session `fresh`,
    /// unless there are too many.
    pub fn admit_as(&mut self, given: Option<&str>, fresh: &str, now_ms: u64) -> (r: Admission)
        ensures
            admitted(
                r,
                crate::text::opt_slice(given),
                fresh@,
                old(self).map.pairs(),
                final(self).map.pairs(),
                now_ms,
            ),
    {
        match given {
            Some(id) => {
                if self.map.find(id).is_some() {
                    self.map.insert(id.to_owned(), now_ms);
                    Admission::Known(id.to_owned())
                } else {
                    Admission::Unknown
                }
            },
            None => {
                if self.map.len() >= MAX_SESSIONS {
                    return Admission::TooMany;
                }
                self.map.insert(fresh.to_owned(), now_ms);
                Admission::Opened(fresh.to_owned())
            },
        }
    }

    /// Ends the session that a request names.
    pub fn close(&mut self, given: Option<&str>) -> (r: Closing)
        ensures
            match given {
                Some(id) => if crate::names::has_name(old(self).map.pairs(), id@) {
                    &&& (r matches Closing::Closed(k) && k@ == id@)
                    &&& final(self).map.pairs() == crate::names::unbound(
                        old(self).map.pairs(),
                        id@,
                    )
                } else {
                    r is Unknown && final(self).map.pairs() == old(self).map.pairs()
                },
                None => r is Missing && final(self).map.pairs() == old(self).map.pairs(),
            },
    {
        match given {
            Some(id) => {
                if self.map.find(id).is_some() {
                    let _last = self.map.remove(id);
                    Closing::Closed(id.to_owned())
                } else {
                    Closing::Unknown
                }
            },
            None => Closing::Missing,
        }
    }

    /// Ends the sessions that have expired, and returns their ids.
    pub fn expire(&mut self, now_ms: u64) -> (r: Vec<String>)
        ensures
            crate::text::texts(r@) == ids(picked(old(self).map.pairs(), expired_at(now_ms))),
            final(self).map.pairs() == picked(old(self).map.pairs(), live_at(now_ms)),
    {
        let ghost all = self.map.pairs();
        let ghost dead = expired_at(now_ms);
        let ghost alive = live_at(now_ms);
        let mut kept: NameMap<u64> = NameMap::new();
        let mut gone: Vec<String> = Vec::new();
        let n: usize = self.map.len();
        let mut i: usize = 0;
        assert(all.take(0) =~= Seq::empty());
        assert(crate::text::texts(gone@) =~= ids(picked(all.take(0), dead)));
        while i < n
            invariant
                all == self.map.pairs(),
                dead == expired_at(now_ms),
                alive == live_at(now_ms),
                n == all.len(),
                crate::names::distinct_names(all),
                i <= n,
                kept.pairs() == picked(all.take(i as int), alive),
                crate::text::texts(gone@) == ids(picked(all.take(i as int), dead)),
            decreases n - i,
        {
            let ghost so_far = picked(all.take(i as int), alive);
            proof {
                assert(all.take(i + 1) =~= all.take(i as int).push(all[i as int]));
                crate::picked::lemma_picked_push(all.take(i as int), all[i as int], alive);
                crate::picked::lemma_picked_push(all.take(i as int), all[i as int], dead);
                crate::picked::lemma_picked(all.take(i as int), alive);
                assert(!crate::names::has_name(so_far, all[i as int].0)) by {
                    if crate::names::has_name(so_far, all[i as int].0) {
                        let p = crate::names::place_of(so_far, all[i as int].0);
                        assert(so_far.contains(so_far[p]));
                        let t = all.take(i as int);
                        let m = choose|m: int| 0 <= m < t.len() && t[m] == so_far[p];
                        assert(all[m].0 == all[i as int].0);
                    }
                }
            }
            let last: u64 = *self.map.value_at(i);
            let id: &String = self.map.name_at(i);
            if now_ms > last && now_ms - last > SESSION_TTL_MILLIS {
                assert(dead(all[i as int]) && !alive(all[i as int]));
                let ghost before = gone@;
                gone.push(id.clone());
                assert(crate::text::texts(gone@) =~= crate::text::texts(before).push(id@));
                assert(ids(picked(all.take(i + 1), dead)) =~= ids(
                    picked(all.take(i as int), dead),
                ).push(id@));
            } else {
                assert(!dead(all[i as int]) && alive(all[i as int]));
                kept.insert(id.clone(), last);
            }
            i = i + 1;
        }
        assert(all.take(n as int) =~= all);
        self.map = kept;
        gone
    }
}

/// What becomes of a request to end a session.
#[derive(Debug)]
pub enum Closing {
    /// The session is ended.
    Closed(String),
    /// There is no such session.
    Unknown,
    /// The request names no session.
    Missing,
}

/// A plain response: a status and a text.
#[derive(Debug)]
pub struct PlainReply {
    pub status: u16,
    pub body: String,
}

/// The response to a request to end a session.
pub fn closing_reply(closing: &Closing) -> (r: PlainReply)
    ensures
        match *closing {
            Closing::Closed(_) => r.status == 200 && r.body@ == "session closed"@,
            Closing::Unknown => r.status == 404 && r.body@ == "unknown session"@,
            Closing::Missing => r.status == 400 && r.body@ == "missing mcp-session-id header"@,
        },
{
    match closing {
        Closing::Closed(_) => PlainReply { status: 200, body: "session closed".to_owned() },
        Closing::Unknown => PlainReply { status: 404, body: "unknown session".to_owned() },
        Closing::Missing => PlainReply {
            status: 400,
            body: "missing mcp-session-id header".to_owned(),
        },
    }
}

// ---------------------------------------------------------------------------
// Requests
// ---------------------------------------------------------------------------

/// How a request is answered.
#[derive(Debug, Clone, Copy, PartialEq, Eq, Structural)]
pub enum Answer {
    /// It is a notification: it is accepted and has no body.
    Accepted,
    /// By a stream of events.
    Stream,
    /// By one response.
    Single,
}

/// How a request is answered.
pub open spec fn answer_to(method: Seq<char>, has_id: bool) -> Answer {
    if !has_id {
        Answer::Accepted
    } else if method == "tools/list"@ {
        Answer::Stream
    } else {
        Answer::Single
    }
}

/// Decides how a request is answered.
pub fn answer_for(req: &RequestParts) -> (r: Answer)
    ensures
        r == answer_to(req.method@, req.id is Some),
{
    if req.id.is_none() {
        Answer::Accepted
    } else if same_text(req.method.as_str(), "tools/list") {
        Answer::Stream
    } else {
        Answer::Single
    }
}

/// The head of a response to a request that is handled.
#[derive(Debug)]
pub struct ReplyHead {
    pub status: u16,
    /// The names and values of the headers.
    pub headers: Vec<(String, String)>,
    /// Whether a body follows; without it the response is empty.
    pub has_body: bool,
}

/// The head of a response: a notification is accepted, with no header and no
/// body; any other request succeeds, and the response names the session.
pub open spec fn head_is(r: ReplyHead, answer: Answer, session: Seq<char>) -> bool {
    match answer {
        Answer::Accepted => {
            &&& r.status == 202
            &&& crate::transport::bridge::header_pairs(r.headers@) == Seq::<(Seq<char>, Seq<char>)>::empty()
            &&& !r.has_body
        },
        Answer::Stream => {
            &&& r.status == 200
            &&& crate::transport::bridge::header_pairs(r.headers@) == seq![
                ("content-type"@, "text/event-stream"@),
                ("mcp-session-id"@, session),
            ]
            &&& r.has_body
        },
        Answer::Single => {
            &&& r.status == 200
            &&& crate::transport::bridge::header_pairs(r.headers@) == seq![
                ("content-type"@, "application/json"@),
                ("mcp-session-id"@, session),
            ]
            &&& r.has_body
        },
    }
}

/// The head of the response in the session `session`.
pub fn reply_head(answer: Answer, session: &str) -> (r: ReplyHead)
    ensures
        head_is(r, answer, session@),
{
    let mut found: Vec<(String, String)> = Vec::new();
    let content_type: &str = match answer {
        Answer::Accepted => {
            assert(crate::transport::bridge::header_pairs(found@) =~= Seq::empty());
            return ReplyHead { status: 202, headers: found, has_body: false };
        },
        Answer::Stream => content_types::SSE,
        Answer::Single => content_types::JSON,
    };
    found.push(("content-type".to_owned(), content_type.to_owned()));
    found.push((headers::SESSION_ID.to_owned(), session.to_owned()));
    assert(crate::transport::bridge::header_pairs(found@) =~= seq![
        ("content-type"@, content_type@),
        ("mcp-session-id"@, session@),
    ]);
    ReplyHead { status: 200, headers: found, has_body: true }
}

/// The headers of a request that matter here.
pub struct RequestHeaders {
    /// The session, and the same under its other name.
    pub session: Option<String>,
    pub session_alias: Option<String>,
    /// The variables that the client overrides.
    pub env: Option<String>,
    /// The servers that the client asks for.
    pub servers: Option<String>,
}

impl RequestHeaders {
    /// The session that the headers name.
    pub open spec fn named(&self) -> Option<Seq<char>> {
        if self.session is Some {
            crate::text::opt_text(self.session)
        } else {
            crate::text::opt_text(self.session_alias)
        }
    }
}

/// What is done with a request.
pub enum Intake {
    /// It is turned away.
    Refused(PlainReply),
    /// It is handled in a session, and answered as `answer` says, with the given
    /// head.
    Handle {
        session: String,
        context: ClientContext,
        request: RequestParts,
        answer: Answer,
        head: ReplyHead,
    },
}

/// The request in `session` is handled as the headers and the body say.
pub open spec fn handled_as(
    r: Intake,
    session: Seq<char>,
    headers: RequestHeaders,
    req: JsonView,
) -> bool {
    match r {
        Intake::Refused(_) => false,
        Intake::Handle { session: id, context, request, answer, head } => {
            &&& id@ == session
            &&& context.env_overrides@ == (match crate::text::opt_text(headers.env) {
                Some(raw) => crate::transport::header_env(raw),
                None => Map::empty(),
            })
            &&& crate::text::texts(context.servers@) == (match crate::text::opt_text(
                headers.servers,
            ) {
                Some(s) => names_in(crate::text::pieces(s, ',')),
                None => Seq::empty(),
            })
            &&& request.method@ == crate::server::or_empty(
                crate::json::text_of(crate::json::member_of(req, "method"@)),
            )
            &&& request.params@ == crate::server::or_null(crate::json::member_of(req, "params"@))
            &&& crate::config::opt_json(request.id) == crate::json::member_of(req, "id"@)
            &&& answer == answer_to(
                request.method@,
                crate::json::member_of(req, "id"@) is Some,
            )
            &&& head_is(head, answer, session)
        },
    }
}

/// What is done with a request, and what that does to the sessions: one that
/// names a session must name a known one; one that names none opens the
/// session `fresh`, unless there are too many.
pub open spec fn taken_in(
    r: Intake,
    headers: RequestHeaders,
    req: JsonView,
    fresh: Seq<char>,
    before: Seq<(Seq<char>, u64)>,
    after: Seq<(Seq<char>, u64)>,
    now_ms: u64,
) -> bool {
    match headers.named() {
        Some(id) => if crate::names::has_name(before, id) {
            handled_as(r, id, headers, req) && after == crate::names::bound(before, id, now_ms)
        } else {
            &&& after == before
            &&& (r matches Intake::Refused(p) && p.status == 404 && p.body@ == "unknown session"@)
        },
        None => if before.len() >= 100 {
            &&& after == before
            &&& (r matches Intake::Refused(p) && p.status == 503 && p.body@
                == "too many active sessions"@)
        } else {
            handled_as(r, fresh, headers, req) && after == crate::names::bound(
                before,
                fresh,
                now_ms,
            )
        },
    }
}

fn slice(o: &Option<String>) -> (r: Option<&str>)
    ensures
        crate::text::opt_slice(r) == crate::text::opt_text(*o),
{
    match o {
        Some(s) => Some(s.as_str()),
        None => None,
    }
}

fn handle_in(session: String, headers: &RequestHeaders, req: &Json) -> (r: Intake)
    ensures
        handled_as(r, session@, *headers, req@),
{
    let context = ClientContext::from_headers(slice(&headers.env), slice(&headers.servers));
    let request = request_parts(req);
    let answer = answer_for(&request);
    let head = reply_head(answer, session.as_str());
    Intake::Handle { session, context, request, answer, head }
}

/// Takes a request in; a session that it opens gets the id `fresh`.
pub fn handle_mcp_as(
    table: &mut SessionTable,
    headers: &RequestHeaders,
    req: &Json,
    fresh: &str,
    now_ms: u64,
) -> (r: Intake)
    ensures
        taken_in(
            r,
            *headers,
            req@,
            fresh@,
            old(table).map.pairs(),
            final(table).map.pairs(),
            now_ms,
        ),
{
    let given = named_session(slice(&headers.session), slice(&headers.session_alias));
    let admission = table.admit_as(slice(&given), fresh, now_ms);
    match admission {
        Admission::Known(id) => handle_in(id, headers, req),
        Admission::Opened(id) => handle_in(id, headers, req),
        Admission::Unknown => Intake::Refused(
            PlainReply { status: 404, body: "unknown session".to_owned() },
        ),
        Admission::TooMany => Intake::Refused(
            PlainReply { status: 503, body: "too many active sessions".to_owned() },
        ),
    }
}

/// Takes a request in; a session that it opens gets a random id.
pub fn handle_mcp(table: &mut SessionTable, headers: &RequestHeaders, req: &Json, now_ms: u64) -> (r:
    Intake)
    ensures
        exists|fresh: Seq<char>| #[trigger]
            uuid_text(fresh) && taken_in(
                r,
                *headers,
                req@,
                fresh,
                old(table).map.pairs(),
                final(table).map.pairs(),
                now_ms,
            ),
{
    let fresh = new_session_id();
    assert(uuid_text(fresh@));
    handle_mcp_as(table, headers, req, fresh.as_str(), now_ms)
}

/// Takes a request to end a session in: the response, and the session to clean
/// up.
pub fn handle_mcp_delete(table: &mut SessionTable, headers: &RequestHeaders) -> (r: (
    PlainReply,
    Option<String>,
))
    ensures
        match headers.named() {
            None => {
                &&& r.0.status == 400
                &&& r.0.body@ == "missing mcp-session-id header"@
                &&& r.1 is None
                &&& final(table).map.pairs() == old(table).map.pairs()
            },
            Some(id) => if crate::names::has_name(old(table).map.pairs(), id) {
                &&& r.0.status == 200
                &&& r.0.body@ == "session closed"@
                &&& crate::text::opt_text(r.1) == Some(id)
                &&& final(table).map.pairs() == crate::names::unbound(old(table).map.pairs(), id)
            } else {
                &&& r.0.status == 404
                &&& r.0.body@ == "unknown session"@
                &&& r.1 is None
                &&& final(table).map.pairs() == old(table).map.pairs()
            },
        },
{
    let given = named_session(slice(&headers.session), slice(&headers.session_alias));
    let closing = table.close(slice(&given));
    let response = closing_reply(&closing);
    let ended: Option<String> = match closing {
        Closing::Closed(id) => Some(id),
        Closing::Unknown => None,
        Closing::Missing => None,
    };
    (response, ended)
}

/// The body of a single response.
pub fn single_body(id: &Json, outcome: Result<Json, RpcError>) -> (r: String)
    ensures
        r@ == crate::json::compact_text(
            crate::jsonrpc::reply_json(id@, crate::jsonrpc::outcome_view(outcome)),
        ),
{
    let body = reply(id, outcome);
    body.to_text()
}

/// A progress event as clients get it.
pub open spec fn progress_json(p: BackendProgress) -> JsonView {
    match p {
        BackendProgress::Ready { server, tools } => JsonView::Object(
            no_members().insert("_progress"@, JsonView::Bool(true)).insert(
                "server"@,
                js(server@),
            ).insert("status"@, js("ready"@)).insert("tools"@, JsonView::Int(tools as int)),
        ),
        BackendProgress::Failed { server, error } => JsonView::Object(
            no_members().insert("_progress"@, JsonView::Bool(true)).insert(
                "server"@,
                js(server@),
            ).insert("status"@, js("failed"@)).insert("error"@, js(error@)),
        ),
    }
}

/// A progress event as clients get it.
pub fn progress_event(p: &BackendProgress) -> (r: Json)
    ensures
        r@ == progress_json(*p),
{
    let mut m: Vec<(String, Json)> = Vec::new();
    put(&mut m, "_progress", Json::Bool(true));
    match p {
        BackendProgress::Ready { server, tools } => {
            put(&mut m, "server", text(server.as_str()));
            put(&mut m, "status", text("ready"));
            put(&mut m, "tools", Json::UInt(*tools as u64));
        },
        BackendProgress::Failed { server, error } => {
            put(&mut m, "server", text(server.as_str()));
            put(&mut m, "status", text("failed"));
            put(&mut m, "error", text(error.as_str()));
        },
    }
    Json::Object(m)
}

/// What the bridge reads from a progress event.
pub open spec fn progress_read(p: BackendProgress) -> crate::transport::bridge::EventView {
    match p {
        BackendProgress::Ready { server, tools } => {
            crate::transport::bridge::EventView::BackendReady { server: server@, tools: tools as int }
        },
        BackendProgress::Failed { server, error } => {
            crate::transport::bridge::EventView::BackendFailed { server: server@, error: error@ }
        },
    }
}

/// The names of a progress event's members differ.
proof fn lemma_progress_names()
    ensures
        "_progress"@ != "server"@,
        "_progress"@ != "status"@,
        "_progress"@ != "tools"@,
        "_progress"@ != "error"@,
        "server"@ != "status"@,
        "server"@ != "tools"@,
        "server"@ != "error"@,
        "status"@ != "tools"@,
        "status"@ != "error"@,
        "ready"@ != "failed"@,
{
    reveal_strlit("_progress");
    reveal_strlit("server");
    reveal_strlit("status");
    reveal_strlit("tools");
    reveal_strlit("error");
    reveal_strlit("ready");
    reveal_strlit("failed");
    assert("_progress"@.len() == 9);
    assert("server"@.len() == 6 && "status"@.len() == 6 && "failed"@.len() == 6);
    assert("tools"@.len() == 5 && "error"@.len() == 5 && "ready"@.len() == 5);
    assert("server"@[1] != "status"@[1]);
}

/// A progress event is a flat object.
proof fn lemma_progress_flat(p: BackendProgress)
    ensures
        crate::json::flat_object(progress_json(p)),
{
    crate::json::lemma_raw_value_name();
    assert("_progress"@[0] != '$') by {
        reveal_strlit("_progress");
    }
    assert("server"@[0] != '$') by {
        reveal_strlit("server");
    }
    assert("status"@[0] != '$') by {
        reveal_strlit("status");
    }
    assert("tools"@[0] != '$') by {
        reveal_strlit("tools");
    }
    assert("error"@[0] != '$') by {
        reveal_strlit("error");
    }
}

/// The bridge reads from a progress event what it tells.
proof fn lemma_progress_read(p: BackendProgress)
    ensures
        crate::json::member_of(progress_json(p), "_progress"@) is Some,
        crate::transport::bridge::progress_of(progress_json(p)) == progress_read(p),
{
    lemma_progress_names();
}

/// The event of a stream that tells of progress. The bridge reads from it what
/// it tells.
pub fn progress_text(p: &BackendProgress) -> (r: String)
    ensures
        r@ == event_text(progress_json(*p)),
        crate::transport::bridge::event_of(event_line(progress_json(*p))) == Some(
            progress_read(*p),
        ),
        crate::transport::bridge::whole_lines(r@) == seq![
            event_line(progress_json(*p)),
            Seq::<char>::empty(),
        ],
        crate::transport::bridge::last_line(r@) == Seq::<char>::empty(),
{
    let v = progress_event(p);
    proof {
        lemma_progress_flat(*p);
        lemma_progress_read(*p);
    }
    let body = v.to_text();
    event_with(body.as_str())
}

/// One event of a stream.
pub open spec fn event_text(v: JsonView) -> Seq<char> {
    "data: "@ + crate::json::compact_text(v) + "\n\n"@
}

/// An event with the text `body`, which stands on one line.
fn event_with(body: &str) -> (r: String)
    requires
        crate::json::on_one_line(body@),
    ensures
        r@ == "data: "@ + body@ + "\n\n"@,
        crate::transport::bridge::whole_lines(r@) == seq![
            "data: "@ + body@,
            Seq::<char>::empty(),
        ],
        crate::transport::bridge::last_line(r@) == Seq::<char>::empty(),
        crate::transport::bridge::data_of("data: "@ + body@) == Some(body@),
{
    let mut s = cat("data: ", body);
    s.append("\n\n");
    proof {
        lemma_event_lines(body@);
        lemma_event_data(body@);
    }
    s
}

/// One event of a stream. It is a line and a blank line, and the bridge reads
/// from the line the very text of the value.
pub fn sse_event(v: &Json) -> (r: String)
    ensures
        r@ == event_text(v@),
        crate::transport::bridge::whole_lines(r@) == seq![event_line(v@), Seq::<char>::empty()],
        crate::transport::bridge::last_line(r@) == Seq::<char>::empty(),
        crate::transport::bridge::data_of(event_line(v@)) == Some(crate::json::compact_text(v@)),
{
    let body = v.to_text();
    event_with(body.as_str())
}

/// The line of an event.
pub open spec fn event_line(v: JsonView) -> Seq<char> {
    "data: "@ + crate::json::compact_text(v)
}

/// An event is cut into its line, a blank line, and nothing more.
proof fn lemma_event_lines(body: Seq<char>)
    requires
        crate::json::on_one_line(body),
    ensures
        crate::text::pieces("data: "@ + body + "\n\n"@, '\n') == seq![
            "data: "@ + body,
            Seq::<char>::empty(),
            Seq::<char>::empty(),
        ],
{
    reveal_strlit("data: ");
    reveal_strlit("\n\n");
    let line = "data: "@ + body;
    let s = line + "\n\n"@;
    let n = line.len() as int;
    assert(s[n] == '\n' && s[n + 1] == '\n' && s.len() == n + 2);
    crate::text::lemma_place_of_char(s, '\n', 0);
    let i = crate::text::place_of_char(s, '\n', 0);
    assert(i == n) by {
        if i < n {
            assert(s[i] == line[i]);
            if i >= 6 {
                assert(line[i] == body[i - 6]);
                assert(body.contains(body[i - 6]));
            }
        }
    }
    assert(s.subrange(0, n) =~= line);
    reveal_with_fuel(crate::text::pieces_from, 4);
    reveal_with_fuel(crate::text::place_of_char, 2);
    assert(crate::text::place_of_char(s, '\n', n + 1) == n + 1);
    assert(s.subrange(n + 1, n + 1) =~= Seq::<char>::empty());
    assert(s.subrange(n + 2, n + 2) =~= Seq::<char>::empty());
    assert(crate::text::pieces(s, '\n') =~= seq![
        line,
        Seq::<char>::empty(),
        Seq::<char>::empty(),
    ]);
}

/// The data of an event's line is its body.
proof fn lemma_event_data(body: Seq<char>)
    requires
        crate::json::on_one_line(body),
    ensures
        crate::transport::bridge::data_of("data: "@ + body) == Some(body),
{
    reveal_strlit("data: ");
    let line = "data: "@ + body;
    assert(!crate::text::is_space(line[0]));
    assert(line.last() == body.last());
    assert(crate::text::trimmed(line) == line);
    assert(line.subrange(0, 6) =~= "data: "@);
    assert(line.subrange(6, line.len() as int) =~= body);
    assert(crate::text::trimmed(body) == body);
}

/// The last event of a `tools/list` stream.
pub fn list_event(id: &Json, tools: &Vec<Tool>, errors: &Vec<(String, String)>) -> (r: String)
    ensures
        r@ == event_text(
            crate::jsonrpc::ok_json(
                id@,
                crate::server::list_json(
                    crate::backend::tools_view(tools@),
                    crate::server::errors_view(errors@),
                ),
            ),
        ),
{
    let body = crate::jsonrpc::ok(id, list_result(tools, errors));
    sse_event(&body)
}

/// The response to a `tools/list` request that broke off for the reason `e`.
pub open spec fn broken_list(id: JsonView, e: Seq<char>) -> JsonView {
    crate::jsonrpc::err_json(id, -32000, "internal error: "@ + e)
}

fn broken_list_reply(id: &Json, e: &str) -> (r: Json)
    ensures
        r@ == broken_list(id@, e@),
{
    let message = cat("internal error: ", e);
    crate::jsonrpc::err(id, codes::INTERNAL, message.as_str())
}

/// The last event of a `tools/list` stream that broke off for the reason `e`.
pub fn list_failed_event(id: &Json, e: &str) -> (r: String)
    ensures
        r@ == event_text(broken_list(id@, e@)),
{
    let body = broken_list_reply(id, e);
    sse_event(&body)
}

/// The health that clients get: that of the hub, with the transport's own.
pub open spec fn http_health(
    health: Map<Seq<char>, JsonView>,
    port: u16,
    sessions: int,
) -> Map<Seq<char>, JsonView> {
    health.insert("status"@, js("ok"@)).insert("transport"@, js("http"@)).insert(
        "port"@,
        JsonView::Int(port as int),
    ).insert("sessions"@, JsonView::Int(sessions))
}

/// Adds the transport's own health to that of the hub.
pub fn handle_health(health: Json, port: u16, sessions: usize) -> (r: Json)
    ensures
        r@ == (match health@ {
            JsonView::Object(m) => JsonView::Object(http_health(m, port, sessions as int)),
            other => other,
        }),
{
    match health {
        Json::Object(members) => {
            let mut m = members;
            put(&mut m, "status", text("ok"));
            put(&mut m, "transport", text("http"));
            put(&mut m, "port", Json::UInt(port as u64));
            put(&mut m, "sessions", Json::UInt(sessions as u64));
            Json::Object(m)
        },
        other => other,
    }
}

// ---------------------------------------------------------------------------
// Laws
// ---------------------------------------------------------------------------

/// There are never more than a hundred sessions, if there were not before.
pub proof fn sessions_are_bounded(
    r: Admission,
    given: Option<Seq<char>>,
    fresh: Seq<char>,
    before: Seq<(Seq<char>, u64)>,
    after: Seq<(Seq<char>, u64)>,
    now_ms: u64,
)
    requires
        admitted(r, given, fresh, before, after, now_ms),
        before.len() <= 100,
    ensures
        after.len() <= 100,
{
    match given {
        Some(id) => {},
        None => {},
    }
}

/// A request that names a session gets into that session or into none: it
/// cannot open one, nor get into another.
pub proof fn named_session_or_none(
    r: Admission,
    id: Seq<char>,
    fresh: Seq<char>,
    before: Seq<(Seq<char>, u64)>,
    after: Seq<(Seq<char>, u64)>,
    now_ms: u64,
)
    requires
        admitted(r, Some(id), fresh, before, after, now_ms),
    ensures
        match r {
            Admission::Known(k) => k@ == id && crate::names::has_name(before, id),
            Admission::Unknown => !crate::names::has_name(before, id) && after == before,
            _ => false,
        },
{
}

/// An admitted request keeps its session from expiring for thirty minutes.
pub proof fn activity_keeps_a_session(id: Seq<char>, last_ms: u64, now_ms: u64)
    requires
        now_ms <= last_ms + 1800000,
    ensures
        live_at(now_ms)((id, last_ms)),
{
}

/// After a session has ended, a request that names it is refused.
pub proof fn closed_session_is_unknown(
    before: Seq<(Seq<char>, u64)>,
    id: Seq<char>,
    r: Admission,
    fresh: Seq<char>,
    after: Seq<(Seq<char>, u64)>,
    now_ms: u64,
)
    requires
        crate::names::distinct_names(before),
        admitted(r, Some(id), fresh, crate::names::unbound(before, id), after, now_ms),
    ensures
        r is Unknown,
{
    crate::names::lemma_unbound(before, id);
    let rest = crate::names::unbound(before, id);
    assert(!crate::names::map_of(rest).dom().contains(id));
}

/// A request without an id is never answered with a body.
pub proof fn notifications_have_no_body(head: ReplyHead, method: Seq<char>, session: Seq<char>)
    requires
        head_is(head, answer_to(method, false), session),
    ensures
        head.status == 202,
        !head.has_body,
{
}

/// A handled request with an id succeeds, and its response names the session
/// that the request was handled in: the one it named, or the one it opened.
pub proof fn responses_name_their_session(
    r: Intake,
    headers: RequestHeaders,
    req: JsonView,
    fresh: Seq<char>,
    before: Seq<(Seq<char>, u64)>,
    after: Seq<(Seq<char>, u64)>,
    now_ms: u64,
)
    requires
        taken_in(r, headers, req, fresh, before, after, now_ms),
        r is Handle,
        crate::json::member_of(req, "id"@) is Some,
    ensures
        r->head.status == 200,
        r->head.has_body,
        crate::transport::bridge::header_pairs(r->head.headers@).contains(
            (
                "mcp-session-id"@,
                match headers.named() {
                    Some(id) => id,
                    None => fresh,
                },
            ),
        ),
        r->session@ == (match headers.named() {
            Some(id) => id,
            None => fresh,
        }),
{
    let pairs = crate::transport::bridge::header_pairs(r->head.headers@);
    assert(pairs[1] == ("mcp-session-id"@, r->session@));
}

/// A session expires if and only if more than thirty minutes have gone by since
/// it was last active.
pub proof fn sessions_expire_after_thirty_minutes(id: Seq<char>, last_ms: u64, now_ms: u64)
    ensures
        expired_at(now_ms)((id, last_ms)) == (now_ms > last_ms + 30 * 60 * 1000),
        live_at(now_ms)((id, last_ms)) == !(now_ms > last_ms + 30 * 60 * 1000),
{
}

/// A request without a session opens one if and only if there are fewer than a
/// hundred; nothing else opens one.
pub proof fn sessions_are_opened_up_to_the_limit(
    r: Admission,
    given: Option<Seq<char>>,
    fresh: Seq<char>,
    before: Seq<(Seq<char>, u64)>,
    after: Seq<(Seq<char>, u64)>,
    now_ms: u64,
)
    requires
        admitted(r, given, fresh, before, after, now_ms),
        crate::names::distinct_names(before),
    ensures
        r is Opened == (given is None && before.len() < 100),
        r is TooMany == (given is None && before.len() >= 100),
        r matches Admission::Opened(k) ==> k@ == fresh && crate::names::map_of(after)
            == crate::names::map_of(before).insert(fresh, now_ms),
        r matches Admission::Known(k) ==> given == Some(k@) && crate::names::map_of(after)
            == crate::names::map_of(before).insert(k@, now_ms),
{
    match given {
        Some(id) => {
            crate::names::lemma_bound(before, id, now_ms);
        },
        None => {
            crate::names::lemma_bound(before, fresh, now_ms);
        },
    }
}

/// The names in a list of servers are its parts without white space around
/// them, in order; a part that is nothing else is no name.
pub proof fn names_are_the_trimmed_parts(
    a: Seq<Seq<char>>,
    b: Seq<Seq<char>>,
    left: Seq<char>,
    name: Seq<char>,
    right: Seq<char>,
)
    requires
        forall|i: int| 0 <= i < left.len() ==> crate::text::is_space(#[trigger] left[i]),
        forall|i: int| 0 <= i < right.len() ==> crate::text::is_space(#[trigger] right[i]),
        name.len() > 0 ==> !crate::text::is_space(name[0]) && !crate::text::is_space(
            name[name.len() - 1],
        ),
    ensures
        names_in(a + b) == names_in(a) + names_in(b),
        name.len() > 0 ==> names_in(seq![left + name + right]) == seq![name],
        name.len() == 0 ==> names_in(seq![left + name + right]).len() == 0,
    decreases b.len(),
{
    reveal_with_fuel(names_in, 2);
    crate::text::trimming_takes_only_white_space(left, name, right);
    assert(seq![left + name + right].drop_last() =~= Seq::empty());
    if name.len() > 0 {
        assert(names_in(seq![left + name + right]) =~= seq![name]);
    }
    if b.len() == 0 {
        assert(a + b =~= a);
        assert(names_in(a) + names_in(b) =~= names_in(a));
    } else {
        assert((a + b).drop_last() =~= a + b.drop_last());
        names_are_the_trimmed_parts(a, b.drop_last(), left, name, right);
        assert(names_in(a + b) =~= names_in(a) + names_in(b));
    }
}

/// A handled request keeps its method, parameters and id as they were sent.
pub proof fn handled_request_is_the_one_sent(
    r: Intake,
    session: Seq<char>,
    headers: RequestHeaders,
    req: JsonView,
    members: Map<Seq<char>, JsonView>,
    method: Seq<char>,
)
    requires
        handled_as(r, session, headers, req),
        req == JsonView::Object(members),
        members.dom().contains("method"@),
        members["method"@] == JsonView::Str(method),
    ensures
        r matches Intake::Handle { session: id, request, answer, .. } && {
            &&& id@ == session
            &&& request.method@ == method
            &&& members.dom().contains("params"@) ==> request.params@ == members["params"@]
            &&& !members.dom().contains("params"@) ==> request.params@ == JsonView::Null
            &&& request.id is Some == members.dom().contains("id"@)
            &&& request.id matches Some(i) ==> i@ == members["id"@]
            &&& answer == Answer::Accepted <==> !members.dom().contains("id"@)
            &&& answer == Answer::Stream <==> members.dom().contains("id"@) && method
                == "tools/list"@
        },
{
}

/// A handled request has the overrides and the servers of its headers.
pub proof fn handled_request_has_its_context(
    r: Intake,
    session: Seq<char>,
    headers: RequestHeaders,
    req: JsonView,
)
    requires
        handled_as(r, session, headers, req),
    ensures
        r matches Intake::Handle { context, .. } && {
            &&& headers.env matches Some(raw) ==> context.env_overrides@
                == crate::transport::header_env(raw@)
            &&& headers.env is None ==> context.env_overrides@ == crate::pool::no_texts()
            &&& headers.servers matches Some(s) ==> crate::text::texts(context.servers@)
                == names_in(crate::text::pieces(s@, ','))
            &&& headers.servers is None ==> context.servers@.len() == 0
        },
{
    if headers.servers is None {
        let servers = r->context.servers@;
        assert(crate::text::texts(servers).len() == servers.len());
    }
}

/// Which requests are refused, and how.
pub proof fn refusals_have_their_status(
    r: Intake,
    headers: RequestHeaders,
    req: JsonView,
    fresh: Seq<char>,
    before: Seq<(Seq<char>, u64)>,
    after: Seq<(Seq<char>, u64)>,
    now_ms: u64,
)
    requires
        taken_in(r, headers, req, fresh, before, after, now_ms),
    ensures
        headers.named() matches Some(id) ==> r is Refused == !crate::names::has_name(before, id),
        headers.named() is None ==> r is Refused == (before.len() >= 100),
        r matches Intake::Refused(p) ==> after == before && p.status == (if headers.named() is Some {
            404u16
        } else {
            503u16
        }),
{
}

/// The session that a request names is the one of the header, or else that of
/// its other name.
pub proof fn session_header_comes_first(headers: RequestHeaders)
    ensures
        headers.session matches Some(s) ==> headers.named() == Some(s@),
        headers.session is None ==> headers.named() == crate::text::opt_text(
            headers.session_alias,
        ),
{
}

/// What progress says.
pub proof fn progress_says_what_happened(server: String, tools: usize, error: String)
    ensures
        ({
            let ready = progress_json(BackendProgress::Ready { server, tools });
            let broken = progress_json(BackendProgress::Failed { server, error });
            &&& crate::json::member_of(ready, "_progress"@) == Some(JsonView::Bool(true))
            &&& crate::json::member_of(ready, "server"@) == Some(JsonView::Str(server@))
            &&& crate::json::member_of(ready, "status"@) == Some(JsonView::Str("ready"@))
            &&& crate::json::member_of(ready, "tools"@) == Some(JsonView::Int(tools as int))
            &&& crate::json::member_of(broken, "_progress"@) == Some(JsonView::Bool(true))
            &&& crate::json::member_of(broken, "server"@) == Some(JsonView::Str(server@))
            &&& crate::json::member_of(broken, "status"@) == Some(JsonView::Str("failed"@))
            &&& crate::json::member_of(broken, "error"@) == Some(JsonView::Str(error@))
        }),
{
    reveal_strlit("_progress");
    reveal_strlit("server");
    reveal_strlit("status");
    reveal_strlit("tools");
    reveal_strlit("error");
    assert("_progress"@.len() == 9 && "server"@.len() == 6 && "status"@.len() == 6
        && "tools"@.len() == 5 && "error"@.len() == 5);
    assert("server"@[1] == 'e' && "status"@[1] == 't');
    assert("tools"@[0] == 't' && "error"@[0] == 'e');
}

/// An event is a data line with the JSON of its value, and an empty line.
pub proof fn events_are_data_lines(v: JsonView)
    ensures
        event_text(v) == event_line(v) + "\n\n"@,
        crate::text::begins(event_text(v), "data: "@),
        event_text(v).subrange(
            "data: "@.len() as int,
            ("data: "@.len() + crate::json::compact_text(v).len()) as int,
        ) == crate::json::compact_text(v),
{
    let t = event_text(v);
    assert(t.subrange(0, "data: "@.len() as int) =~= "data: "@);
    assert(t.subrange(
        "data: "@.len() as int,
        ("data: "@.len() + crate::json::compact_text(v).len()) as int,
    ) =~= crate::json::compact_text(v));
}

/// The health over HTTP adds the port and the number of sessions to that of the
/// pool, and keeps the rest.
pub proof fn health_tells_port_and_sessions(
    health: Map<Seq<char>, JsonView>,
    port: u16,
    sessions: int,
    key: Seq<char>,
)
    ensures
        http_health(health, port, sessions)["status"@] == JsonView::Str("ok"@),
        http_health(health, port, sessions)["transport"@] == JsonView::Str("http"@),
        http_health(health, port, sessions)["port"@] == JsonView::Int(port as int),
        http_health(health, port, sessions)["sessions"@] == JsonView::Int(sessions),
        key != "status"@ && key != "transport"@ && key != "port"@ && key != "sessions"@
            ==> http_health(health, port, sessions).dom().contains(key) == health.dom().contains(
            key,
        ) && http_health(health, port, sessions)[key] == health[key],
{
    reveal_strlit("status");
    reveal_strlit("transport");
    reveal_strlit("port");
    reveal_strlit("sessions");
    assert("status"@.len() == 6 && "transport"@.len() == 9 && "port"@.len() == 4
        && "sessions"@.len() == 8);
}

} // verus!
