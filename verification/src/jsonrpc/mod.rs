//! JSON-RPC 2.0 messages and errors.
use std::fmt::Write;

use vstd::prelude::*;

use crate::json::{Json, JsonView, js, no_members, put, text};
use crate::names::Duplicate;
use crate::text::cat;

pub mod codes;

verus! {

/// An outgoing request.
pub struct Request<'a> {
    /// The protocol version.
    pub jsonrpc: &'static str,
    /// The id that the response echoes.
    pub id: u64,
    /// The method.
    pub method: &'a str,
    /// The parameters.
    pub params: Json,
}

/// The request as a JSON value.
pub open spec fn request_json(
    version: Seq<char>,
    id: int,
    method: Seq<char>,
    params: JsonView,
) -> JsonView {
    JsonView::Object(
        no_members().insert("jsonrpc"@, js(version)).insert("id"@, JsonView::Int(id)).insert(
            "method"@,
            js(method),
        ).insert("params"@, params),
    )
}

impl<'a> Request<'a> {
    /// A request with the protocol version filled in.
    pub fn new(id: u64, method: &'a str, params: Json) -> (r: Self)
        ensures
            r.jsonrpc@ == "2.0"@,
            r.id == id,
            r.method@ == method@,
            r.params@ == params@,
    {
        Request { jsonrpc: "2.0", id, method, params }
    }

    /// The request as a JSON value.
    pub fn to_json(&self) -> (r: Json)
        ensures
            r@ == request_json(self.jsonrpc@, self.id as int, self.method@, self.params@),
    {
        let mut members: Vec<(String, Json)> = Vec::new();
        put(&mut members, "jsonrpc", text(self.jsonrpc));
        put(&mut members, "id", Json::UInt(self.id));
        put(&mut members, "method", text(self.method));
        put(&mut members, "params", self.params.duplicate());
        Json::Object(members)
    }
}

/// An outgoing notification: it has no id, and no response is expected.
pub struct Notification<'a> {
    /// The protocol version.
    pub jsonrpc: &'static str,
    /// The method.
    pub method: &'a str,
    /// The parameters.
    pub params: Json,
}

/// The notification as a JSON value.
pub open spec fn notification_json(
    version: Seq<char>,
    method: Seq<char>,
    params: JsonView,
) -> JsonView {
    JsonView::Object(
        no_members().insert("jsonrpc"@, js(version)).insert("method"@, js(method)).insert(
            "params"@,
            params,
        ),
    )
}

impl<'a> Notification<'a> {
    /// A notification with the protocol version filled in.
    pub fn new(method: &'a str, params: Json) -> (r: Self)
        ensures
            r.jsonrpc@ == "2.0"@,
            r.method@ == method@,
            r.params@ == params@,
    {
        Notification { jsonrpc: "2.0", method, params }
    }

    /// The notification as a JSON value.
    pub fn to_json(&self) -> (r: Json)
        ensures
            r@ == notification_json(self.jsonrpc@, self.method@, self.params@),
    {
        let mut members: Vec<(String, Json)> = Vec::new();
        put(&mut members, "jsonrpc", text(self.jsonrpc));
        put(&mut members, "method", text(self.method));
        put(&mut members, "params", self.params.duplicate());
        Json::Object(members)
    }
}

/// An incoming response from a backend.
pub struct Response {
    /// The id of the request that it answers.
    pub id: Option<u64>,
    /// The result.
    pub result: Option<Json>,
    /// The error.
    pub error: Option<WireError>,
}

/// The error object of a response.
pub struct WireError {
    pub code: i64,
    pub message: String,
}

/// A success response.
pub open spec fn ok_json(id: JsonView, result: JsonView) -> JsonView {
    JsonView::Object(
        no_members().insert("jsonrpc"@, js("2.0"@)).insert("id"@, id).insert("result"@, result),
    )
}

/// An error response.
pub open spec fn err_json(id: JsonView, code: int, message: Seq<char>) -> JsonView {
    JsonView::Object(
        no_members().insert("jsonrpc"@, js("2.0"@)).insert("id"@, id).insert(
            "error"@,
            JsonView::Object(
                no_members().insert("code"@, JsonView::Int(code)).insert("message"@, js(message)),
            ),
        ),
    )
}

/// Builds a success response.
pub fn ok(id: &Json, result: Json) -> (r: Json)
    ensures
        r@ == ok_json(id@, result@),
{
    let mut members: Vec<(String, Json)> = Vec::new();
    put(&mut members, "jsonrpc", text("2.0"));
    put(&mut members, "id", id.duplicate());
    put(&mut members, "result", result);
    Json::Object(members)
}

/// Builds an error response.
pub fn err(id: &Json, code: i64, message: &str) -> (r: Json)
    ensures
        r@ == err_json(id@, code as int, message@),
{
    let mut error: Vec<(String, Json)> = Vec::new();
    put(&mut error, "code", Json::Int(code));
    put(&mut error, "message", text(message));
    let mut members: Vec<(String, Json)> = Vec::new();
    put(&mut members, "jsonrpc", text("2.0"));
    put(&mut members, "id", id.duplicate());
    put(&mut members, "error", Json::Object(error));
    Json::Object(members)
}

/// What can go wrong with a request.
#[derive(Debug)]
pub enum RpcError {
    MethodNotFound(String),
    InvalidParams(String),
    ToolNotFound(String),
    Internal(String),
}

/// What an error stands for.
pub enum RpcErrorView {
    MethodNotFound(Seq<char>),
    InvalidParams(Seq<char>),
    ToolNotFound(Seq<char>),
    Internal(Seq<char>),
}

impl View for RpcError {
    type V = RpcErrorView;

    open spec fn view(&self) -> RpcErrorView {
        match *self {
            RpcError::MethodNotFound(m) => RpcErrorView::MethodNotFound(m@),
            RpcError::InvalidParams(m) => RpcErrorView::InvalidParams(m@),
            RpcError::ToolNotFound(m) => RpcErrorView::ToolNotFound(m@),
            RpcError::Internal(m) => RpcErrorView::Internal(m@),
        }
    }
}

impl RpcErrorView {
    /// The code of the error.
    pub open spec fn code(self) -> int {
        match self {
            RpcErrorView::MethodNotFound(_) => -32601,
            RpcErrorView::InvalidParams(_) => -32602,
            RpcErrorView::ToolNotFound(_) => -32002,
            RpcErrorView::Internal(_) => -32000,
        }
    }

    /// The message of the error.
    pub open spec fn message(self) -> Seq<char> {
        match self {
            RpcErrorView::MethodNotFound(m) => "unsupported method: "@ + m,
            RpcErrorView::InvalidParams(m) => m,
            RpcErrorView::ToolNotFound(m) => "unknown tool: "@ + m,
            RpcErrorView::Internal(m) => m,
        }
    }
}

/// An error of the `anyhow` crate.
#[verifier::external_type_specification]
#[verifier::external_body]
pub struct ExAnyhowError(anyhow::Error);

/// The text of an `anyhow::Error`, written by its `Display` as far as that goes
/// without an error. What a `Display` writes may rest on anything, and nothing
/// is claimed of it.
#[verifier::external_body]
fn error_string(e: &anyhow::Error) -> (r: String) {
    let mut s = String::new();
    let _ = write!(s, "{e}");
    s
}

impl RpcError {
    /// The internal error with the given message.
    pub fn internal(message: String) -> (r: Self)
        ensures
            r@ == RpcErrorView::Internal(message@),
    {
        RpcError::Internal(message)
    }

    /// The code of the error.
    pub fn code(&self) -> (r: i64)
        ensures
            r == self@.code(),
    {
        match self {
            RpcError::MethodNotFound(_) => codes::METHOD_NOT_FOUND,
            RpcError::InvalidParams(_) => codes::INVALID_PARAMS,
            RpcError::ToolNotFound(_) => codes::TOOL_NOT_FOUND,
            RpcError::Internal(_) => codes::INTERNAL,
        }
    }

    /// The message of the error.
    pub fn message(&self) -> (r: String)
        ensures
            r@ == self@.message(),
    {
        match self {
            RpcError::MethodNotFound(m) => cat("unsupported method: ", m.as_str()),
            RpcError::InvalidParams(m) => m.clone(),
            RpcError::ToolNotFound(m) => cat("unknown tool: ", m.as_str()),
            RpcError::Internal(m) => m.clone(),
        }
    }

    /// The error response to the request `id`.
    pub fn to_json(&self, id: &Json) -> (r: Json)
        ensures
            r@ == err_json(id@, self@.code(), self@.message()),
    {
        let message = self.message();
        err(id, self.code(), message.as_str())
    }
}

impl vstd::std_specs::convert::FromSpecImpl<anyhow::Error> for RpcError {
    open spec fn obeys_from_spec() -> bool {
        false
    }

    open spec fn from_spec(e: anyhow::Error) -> RpcError {
        arbitrary()
    }
}

impl From<anyhow::Error> for RpcError {
    /// The internal error with the message of `e`.
    fn from(e: anyhow::Error) -> (r: Self)
        ensures
            r@ is Internal,
    {
        RpcError::internal(error_string(&e))
    }
}

/// A result or an error, as a response to the request `id`.
pub open spec fn reply_json(id: JsonView, outcome: Result<JsonView, RpcErrorView>) -> JsonView {
    match outcome {
        Ok(v) => ok_json(id, v),
        Err(e) => err_json(id, e.code(), e.message()),
    }
}

/// What a result stands for.
pub open spec fn outcome_view(r: Result<Json, RpcError>) -> Result<JsonView, RpcErrorView> {
    match r {
        Ok(v) => Ok(v@),
        Err(e) => Err(e@),
    }
}

/// The response to the request `id` with the given outcome.
pub fn reply(id: &Json, outcome: Result<Json, RpcError>) -> (r: Json)
    ensures
        r@ == reply_json(id@, outcome_view(outcome)),
{
    match outcome {
        Ok(v) => ok(id, v),
        Err(e) => e.to_json(id),
    }
}

// ---------------------------------------------------------------------------
// Laws
// ---------------------------------------------------------------------------

/// Errors of different kinds have different codes.
pub proof fn codes_tell_errors_apart(a: RpcErrorView, b: RpcErrorView)
    requires
        a.code() == b.code(),
    ensures
        a is MethodNotFound == b is MethodNotFound,
        a is InvalidParams == b is InvalidParams,
        a is ToolNotFound == b is ToolNotFound,
        a is Internal == b is Internal,
{
}

/// Every response echoes the id of its request, and has a result or an error,
/// never both.
pub proof fn replies_are_well_formed(id: JsonView, outcome: Result<JsonView, RpcErrorView>)
    ensures
        crate::json::member_of(reply_json(id, outcome), "jsonrpc"@) == Some(js("2.0"@)),
        crate::json::member_of(reply_json(id, outcome), "id"@) == Some(id),
        crate::json::member_of(reply_json(id, outcome), "result"@) is Some == outcome is Ok,
        crate::json::member_of(reply_json(id, outcome), "error"@) is Some == outcome is Err,
{
    reveal_strlit("jsonrpc");
    reveal_strlit("id");
    reveal_strlit("result");
    reveal_strlit("error");
    assert("jsonrpc"@.len() == 7 && "id"@.len() == 2 && "result"@.len() == 6 && "error"@.len()
        == 5);
}

/// The names of the members of messages are different texts.
proof fn lemma_members_differ()
    ensures
        "jsonrpc"@.len() == 7,
        "id"@.len() == 2,
        "method"@.len() == 6,
        "params"@.len() == 6,
        "result"@.len() == 6,
        "error"@.len() == 5,
        "code"@.len() == 4,
        "message"@.len() == 7,
        "method"@ != "params"@,
        "method"@ != "result"@,
        "params"@ != "result"@,
{
    reveal_strlit("jsonrpc");
    reveal_strlit("id");
    reveal_strlit("method");
    reveal_strlit("params");
    reveal_strlit("result");
    reveal_strlit("error");
    reveal_strlit("code");
    reveal_strlit("message");
    assert("method"@[0] == 'm' && "params"@[0] == 'p' && "result"@[0] == 'r');
}

/// A request says its version, id, method and parameters.
pub proof fn request_says_what_it_asks(
    version: Seq<char>,
    id: int,
    method: Seq<char>,
    params: JsonView,
)
    ensures
        ({
            let r = request_json(version, id, method, params);
            &&& crate::json::member_of(r, "jsonrpc"@) == Some(JsonView::Str(version))
            &&& crate::json::member_of(r, "id"@) == Some(JsonView::Int(id))
            &&& crate::json::member_of(r, "method"@) == Some(JsonView::Str(method))
            &&& crate::json::member_of(r, "params"@) == Some(params)
        }),
{
    lemma_members_differ();
}

/// A notification says the same, without an id.
pub proof fn notification_has_no_id(version: Seq<char>, method: Seq<char>, params: JsonView)
    ensures
        ({
            let r = notification_json(version, method, params);
            &&& crate::json::member_of(r, "jsonrpc"@) == Some(JsonView::Str(version))
            &&& crate::json::member_of(r, "id"@) is None
            &&& crate::json::member_of(r, "method"@) == Some(JsonView::Str(method))
            &&& crate::json::member_of(r, "params"@) == Some(params)
        }),
{
    lemma_members_differ();
}

/// A reply has the id of its request, and either the result or the error.
pub proof fn reply_has_the_id_and_the_outcome(
    id: JsonView,
    outcome: Result<JsonView, RpcErrorView>,
)
    ensures
        ({
            let r = reply_json(id, outcome);
            &&& crate::json::member_of(r, "jsonrpc"@) == Some(JsonView::Str("2.0"@))
            &&& crate::json::member_of(r, "id"@) == Some(id)
            &&& crate::json::member_of(r, "result"@) == (match outcome {
                Ok(v) => Some(v),
                Err(_) => None,
            })
            &&& crate::json::member_of(r, "error"@) is Some == (outcome is Err)
        }),
{
    lemma_members_differ();
}

/// An error says its code and its message.
pub proof fn error_says_code_and_message(id: JsonView, code: int, message: Seq<char>)
    ensures
        crate::json::member_of(err_json(id, code, message), "error"@) matches Some(e)
            && crate::json::member_of(e, "code"@) == Some(JsonView::Int(code))
            && crate::json::member_of(e, "message"@) == Some(JsonView::Str(message)),
        crate::json::member_of(err_json(id, code, message), "id"@) == Some(id),
{
    lemma_members_differ();
}

/// What each kind of error is sent as.
pub proof fn errors_have_their_codes(m: Seq<char>, id: JsonView)
    ensures
        reply_json(id, Err(RpcErrorView::MethodNotFound(m))) == err_json(
            id,
            -32601,
            "unsupported method: "@ + m,
        ),
        reply_json(id, Err(RpcErrorView::InvalidParams(m))) == err_json(id, -32602, m),
        reply_json(id, Err(RpcErrorView::ToolNotFound(m))) == err_json(
            id,
            -32002,
            "unknown tool: "@ + m,
        ),
        reply_json(id, Err(RpcErrorView::Internal(m))) == err_json(id, -32000, m),
{
}

} // verus!
