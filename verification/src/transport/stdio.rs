//! The stdio transport: one JSON-RPC message per line.
use vstd::prelude::*;

use crate::json::Json;
use crate::jsonrpc::{RpcError, reply};
use crate::server::{RequestParts, request_parts};
use crate::text::trim;

verus! {

/// What a line of input is.
pub enum Line {
    /// Nothing but white space.
    Blank,
    /// Not JSON.
    Bad,
    /// A request.
    Request(RequestParts),
}

/// A line is read as a request, if it is JSON.
pub open spec fn line_is_read(r: Line, line: Seq<char>) -> bool {
    let body = crate::text::trimmed(line);
    let parsed = crate::json::parsed_json(vstd::utf8::encode_utf8(body));
    if body.len() == 0 {
        r is Blank
    } else {
        match parsed {
            None => r is Bad,
            Some(v) => {
                &&& r matches Line::Request(p)
                &&& p.method@ == crate::server::or_empty(
                    crate::json::text_of(crate::json::member_of(v, "method"@)),
                )
                &&& p.params@ == crate::server::or_null(crate::json::member_of(v, "params"@))
                &&& crate::config::opt_json(p.id) == crate::json::member_of(v, "id"@)
            },
        }
    }
}

/// Reads a line of input.
pub fn read_line(line: &str) -> (r: Line)
    ensures
        line_is_read(r, line@),
{
    let body = trim(line);
    if body.as_str().unicode_len() == 0 {
        return Line::Blank;
    }
    match Json::parse(body.as_str()) {
        None => Line::Bad,
        Some(v) => Line::Request(request_parts(&v)),
    }
}

/// The line to write for an outcome; a notification has none.
pub fn write_response(id: Option<&Json>, outcome: Result<Json, RpcError>) -> (r: Option<String>)
    ensures
        r is Some == id is Some,
        r matches Some(line) ==> line@ == crate::json::compact_text(
            crate::jsonrpc::reply_json(id->0@, crate::jsonrpc::outcome_view(outcome)),
        ) && crate::json::on_one_line(line@),
{
    match id {
        Some(id) => {
            let response = reply(id, outcome);
            Some(response.to_text())
        },
        None => None,
    }
}

// ---------------------------------------------------------------------------
// Laws
// ---------------------------------------------------------------------------

/// A line that is an object with a method is read as a request of that method,
/// with its parameters and its id; white space around it does not count.
pub proof fn requests_are_read_as_they_are(
    r: Line,
    left: Seq<char>,
    body: Seq<char>,
    right: Seq<char>,
    members: Map<Seq<char>, crate::json::JsonView>,
    method: Seq<char>,
)
    requires
        line_is_read(r, left + body + right),
        forall|i: int| 0 <= i < left.len() ==> crate::text::is_space(#[trigger] left[i]),
        forall|i: int| 0 <= i < right.len() ==> crate::text::is_space(#[trigger] right[i]),
        body.len() > 0,
        !crate::text::is_space(body[0]),
        !crate::text::is_space(body[body.len() - 1]),
        crate::json::parsed_json(vstd::utf8::encode_utf8(body)) == Some(
            crate::json::JsonView::Object(members),
        ),
        members.dom().contains("method"@),
        members["method"@] == crate::json::JsonView::Str(method),
    ensures
        r matches Line::Request(p) && {
            &&& p.method@ == method
            &&& members.dom().contains("params"@) ==> p.params@ == members["params"@]
            &&& !members.dom().contains("params"@) ==> p.params@ == crate::json::JsonView::Null
            &&& p.id is Some == members.dom().contains("id"@)
            &&& p.id matches Some(i) ==> i@ == members["id"@]
        },
{
    crate::text::trimming_takes_only_white_space(left, body, right);
}

/// A line of nothing but white space is blank, and only such a line.
pub proof fn only_white_space_is_blank(r: Line, line: Seq<char>)
    requires
        line_is_read(r, line),
        forall|i: int| 0 <= i < line.len() ==> crate::text::is_space(#[trigger] line[i]),
    ensures
        r is Blank,
{
    let none = Seq::<char>::empty();
    assert(line + none + none =~= line);
    crate::text::trimming_takes_only_white_space(line, none, none);
}

} // verus!
