use mcp_proxy::json::Json;
use mcp_proxy::jsonrpc::codes;
use mcp_proxy::jsonrpc::{Notification, Request, RpcError, err, ok, reply};
use mcp_proxy::names::SameView;

fn value(text: &str) -> Json {
    Json::parse(text).unwrap()
}

#[test]
fn request_has_jsonrpc_2_0() {
    let req = Request::new(42, "tools/list", value("{}"));
    let v = value(&req.to_json().to_text());
    assert_eq!(v.text_or("jsonrpc", ""), "2.0");
    assert_eq!(v.uint_or_zero("id"), 42);
    assert_eq!(v.text_or("method", ""), "tools/list");
}

#[test]
fn notification_has_no_id() {
    let n = Notification::new("notifications/initialized", value("{}"));
    let v = value(&n.to_json().to_text());
    assert_eq!(v.text_or("jsonrpc", ""), "2.0");
    assert_eq!(v.text_or("method", ""), "notifications/initialized");
    assert!(v.get("id").is_none());
}

#[test]
fn ok_builder() {
    let v = ok(&value("1"), value(r#"{"x": 2}"#));
    assert_eq!(v.text_or("jsonrpc", ""), "2.0");
    assert_eq!(v.uint_or_zero("id"), 1);
    assert_eq!(v.get("result").unwrap().uint_or_zero("x"), 2);
}

#[test]
fn err_builder() {
    let v = err(&value(r#""abc""#), -32601, "missing");
    assert_eq!(v.text_or("jsonrpc", ""), "2.0");
    assert_eq!(v.text_or("id", ""), "abc");
    let e = v.get("error").unwrap();
    assert_eq!(e.get("code").unwrap().to_text(), "-32601");
    assert_eq!(e.text_or("message", ""), "missing");
}

#[test]
fn rpc_error_codes() {
    assert_eq!(
        RpcError::MethodNotFound("x".into()).code(),
        codes::METHOD_NOT_FOUND
    );
    assert_eq!(
        RpcError::InvalidParams("x".into()).code(),
        codes::INVALID_PARAMS
    );
    assert_eq!(
        RpcError::ToolNotFound("x".into()).code(),
        codes::TOOL_NOT_FOUND
    );
    assert_eq!(RpcError::Internal("x".into()).code(), codes::INTERNAL);
}

#[test]
fn rpc_error_to_json_maps_code_and_message() {
    let v = RpcError::ToolNotFound("ghost".into()).to_json(&value("5"));
    assert_eq!(v.uint_or_zero("id"), 5);
    let e = v.get("error").unwrap();
    assert_eq!(e.get("code").unwrap().to_text(), codes::TOOL_NOT_FOUND.to_string());
    assert_eq!(e.text_or("message", ""), "unknown tool: ghost");
}

#[test]
fn rpc_error_from_anyhow() {
    let e: RpcError = anyhow::Error::msg("boom").into();
    assert!(matches!(e, RpcError::Internal(ref m) if m == "boom"));
}

#[derive(Debug)]
struct Mute;

impl std::fmt::Display for Mute {
    fn fmt(&self, f: &mut std::fmt::Formatter<'_>) -> std::fmt::Result {
        f.write_str("half")?;
        Err(std::fmt::Error)
    }
}

#[test]
fn an_error_that_cannot_be_displayed_is_internal() {
    let e: RpcError = anyhow::Error::msg(Mute).into();
    assert!(matches!(e, RpcError::Internal(ref m) if m == "half"));
    assert_eq!(RpcError::internal("i".to_string()).message(), "i");
}

#[test]
fn numbers_keep_their_kind() {
    for raw in ["5", "-5", "1.5", "1.0", "-0.0", "1e300", "18446744073709551616.0"] {
        let v = value(raw);
        let back = value(&v.to_text());
        assert!(v.same(&back), "{raw}");
        assert_eq!(matches!(v, Json::Decimal(_)), raw.contains('.') || raw.contains('e'));
        assert_eq!(matches!(back, Json::Decimal(_)), matches!(v, Json::Decimal(_)));
    }
}

#[test]
fn rpc_error_messages() {
    assert_eq!(RpcError::MethodNotFound("m".into()).message(), "unsupported method: m");
    assert_eq!(RpcError::InvalidParams("p".into()).message(), "p");
    assert_eq!(RpcError::Internal("i".into()).message(), "i");
}

#[test]
fn replies_carry_a_result_or_an_error() {
    let good = reply(&value("1"), Ok(value("true")));
    assert_eq!(good.to_text(), r#"{"id":1,"jsonrpc":"2.0","result":true}"#);
    let bad = reply(&value("1"), Err(RpcError::MethodNotFound("x".into())));
    assert!(bad.get("result").is_none());
    assert_eq!(bad.get("error").unwrap().get("code").unwrap().to_text(), "-32601");
}

#[test]
fn json_reads_and_prints() {
    assert!(Json::parse("{").is_none());
    assert!(Json::parse_bytes(b"[1]").is_some());
    let v = value(r#"{"a":[1,-2,1.5,"x",null,true],"a2":{"b":18446744073709551615}}"#);
    assert_eq!(
        v.to_text(),
        r#"{"a":[1,-2,1.5,"x",null,true],"a2":{"b":18446744073709551615}}"#
    );
    assert_eq!(v.get("a").unwrap().as_array().unwrap().len(), 6);
    assert_eq!(v.get("a2").unwrap().uint_or_zero("b"), u64::MAX);
    assert_eq!(value(r#"{"a":1}"#).to_pretty_text(), "{\n  \"a\": 1\n}");
    assert_eq!(value(r#"{"a":1,"a":2}"#).uint_or_zero("a"), 2);
}
