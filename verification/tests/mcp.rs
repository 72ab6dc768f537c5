//! The MCP endpoint.

use axum::http::HeaderMap;
use overfwd::auth::{require_gateway_access, InlineHeaders, Secret};
use overfwd::error::GatewayError;
use overfwd::json::Json;
use overfwd::mcp::{
    arguments_error, list_response, mcp_endpoint, tool_error, tool_failure, tool_response,
    tool_success, tools_call, CallParams, CallPlan, HttpReply, Incoming, McpBody, McpStep, McpTask,
    RpcOutcome, RpcRequest, RpcResponse, Tool, ToolSchemas, INVALID_REQUEST,
};
use overfwd::openapi::{security_schemes, SchemeKind};
use serde_json::{Number, Value};

const VERSION: &str = "1.2.3";

fn of_value(v: &Value) -> Json {
    match v {
        Value::Null => Json::Null,
        Value::Bool(b) => Json::Bool(*b),
        Value::Number(n) => Json::Number(n.to_string()),
        Value::String(s) => Json::Text(s.clone()),
        Value::Array(items) => Json::Array(items.iter().map(of_value).collect()),
        Value::Object(members) => {
            Json::Object(members.iter().map(|(k, v)| (k.clone(), of_value(v))).collect())
        }
    }
}

fn to_value(j: &Json) -> Value {
    match j {
        Json::Null => Value::Null,
        Json::Bool(b) => Value::Bool(*b),
        Json::Number(n) => Value::Number(n.parse::<Number>().unwrap()),
        Json::Text(s) => Value::String(s.clone()),
        Json::Array(items) => Value::Array(items.iter().map(to_value).collect()),
        Json::Object(members) => {
            let mut m = serde_json::Map::new();
            for (k, v) in members {
                m.insert(k.clone(), to_value(v));
            }
            Value::Object(m)
        }
    }
}

/// A response as it goes over the wire.
fn wire(r: &RpcResponse) -> Value {
    let mut m = serde_json::Map::new();
    m.insert("jsonrpc".to_string(), Value::from("2.0"));
    m.insert("id".to_string(), to_value(&r.id));
    match &r.outcome {
        RpcOutcome::Result(j) => {
            m.insert("result".to_string(), to_value(j));
        }
        RpcOutcome::Error(e) => {
            let mut error = serde_json::Map::new();
            error.insert("code".to_string(), Value::from(e.code));
            error.insert("message".to_string(), Value::from(e.message.clone()));
            if let Some(data) = &e.data {
                error.insert("data".to_string(), to_value(data));
            }
            m.insert("error".to_string(), Value::Object(error));
        }
    }
    Value::Object(m)
}

fn incoming(v: &Value) -> Incoming {
    let id = v.get("id").map(of_value);
    match v.get("method").and_then(Value::as_str) {
        Some(method) => Incoming::Request(RpcRequest {
            jsonrpc: v.get("jsonrpc").and_then(Value::as_str).unwrap_or("").to_string(),
            id,
            method: method.to_string(),
            params: v.get("params").map(of_value),
        }),
        None => Incoming::Malformed { id, detail: "missing field `method`".to_string() },
    }
}

fn body_of(body: &str) -> McpBody {
    match serde_json::from_str::<Value>(body) {
        Err(e) => McpBody::Unreadable(e.to_string()),
        Ok(Value::Array(items)) => McpBody::Batch(items.iter().map(incoming).collect()),
        Ok(v) if v.is_object() => McpBody::Single(incoming(&v)),
        Ok(_) => McpBody::Other,
    }
}

fn schemas() -> ToolSchemas {
    let schema = |required: &str| {
        let text = format!(r#"{{"type":"object","required":[{required}]}}"#);
        of_value(&serde_json::from_str(&text).unwrap())
    };
    ToolSchemas { search: schema(""), get: schema(r#""uid""#), send: schema(r#""from""#) }
}

/// Answers a POST; `credential` says why there is no credential, if there is none.
fn post_as(body: &str, no_credential: Option<&GatewayError>) -> HttpReply {
    let mut step = mcp_endpoint(body_of(body), VERSION).begin();
    loop {
        step = match step {
            McpStep::Done(reply) => return reply,
            McpStep::Ask(run, McpTask::ListTools(id)) => {
                run.answered(list_response(id, schemas()))
            }
            McpStep::Ask(run, McpTask::Call(id, params)) => {
                let params = params.map(|p| to_value(&p));
                let named = match params.as_ref().map(|p| p.get("name").and_then(Value::as_str)) {
                    None => CallParams::Missing,
                    Some(None) => CallParams::Unreadable("missing field `name`".to_string()),
                    Some(Some(name)) => CallParams::Named(name.to_string()),
                };
                run.answered(match tools_call(id, no_credential, named) {
                    CallPlan::Reply(r) => r,
                    CallPlan::Run(id, tool) => {
                        let arguments = params.unwrap();
                        match (tool, arguments["arguments"]["uid"].as_u64()) {
                            (Tool::Get, None) => arguments_error(id, tool, "uid is no number"),
                            _ => tool_response(id, Ok("{}".to_string())),
                        }
                    }
                })
            }
        };
    }
}

fn post(body: &str) -> HttpReply {
    let err = InlineHeaders::parse(&HeaderMap::new()).err().unwrap();
    post_as(body, Some(&err))
}

fn one(reply: HttpReply) -> Value {
    match reply {
        HttpReply::One(r) => wire(&r),
        other => panic!("one answer was expected, not {other:?}"),
    }
}

#[test]
fn initialize_advertises_tools_capability() {
    let json = one(post(
        r#"{"jsonrpc":"2.0","id":1,"method":"initialize",
            "params":{"protocolVersion":"2025-06-18","capabilities":{}}}"#,
    ));
    assert_eq!(json["jsonrpc"], "2.0");
    assert_eq!(json["id"], 1);
    assert_eq!(json["result"]["protocolVersion"], "2025-06-18");
    assert!(json["result"]["capabilities"]["tools"].is_object());
    assert_eq!(json["result"]["serverInfo"]["name"], "overfwd");
    assert_eq!(json["result"]["serverInfo"]["version"], VERSION);
}

#[test]
fn initialize_negotiates_a_supported_older_version() {
    let json = one(post(
        r#"{"jsonrpc":"2.0","id":1,"method":"initialize","params":{"protocolVersion":"2024-11-05"}}"#,
    ));
    assert_eq!(json["result"]["protocolVersion"], "2024-11-05");
}

#[test]
fn initialize_falls_back_on_unknown_version() {
    let json = one(post(
        r#"{"jsonrpc":"2.0","id":1,"method":"initialize","params":{"protocolVersion":"1999-01-01"}}"#,
    ));
    assert_eq!(json["result"]["protocolVersion"], "2025-06-18");
}

#[test]
fn initialized_notification_gets_no_response() {
    let reply = post(r#"{"jsonrpc":"2.0","method":"notifications/initialized"}"#);
    assert!(matches!(reply, HttpReply::Accepted));
}

#[test]
fn ping_returns_empty_result() {
    let json = one(post(r#"{"jsonrpc":"2.0","id":7,"method":"ping"}"#));
    assert_eq!(json["id"], 7);
    assert_eq!(json["result"], Value::Object(serde_json::Map::new()));
}

#[test]
fn tools_list_exposes_the_three_actions_with_real_schemas() {
    let json = one(post(r#"{"jsonrpc":"2.0","id":2,"method":"tools/list"}"#));

    let tools = json["result"]["tools"].as_array().unwrap();
    let names: Vec<&str> = tools.iter().map(|t| t["name"].as_str().unwrap()).collect();
    assert_eq!(names, ["email_search", "email_get", "email_send"]);

    for tool in tools {
        assert_eq!(tool["inputSchema"]["type"], "object", "tool {}", tool["name"]);
    }

    // Each tool has its own schema: `email_get.uid` is required.
    let get = tools.iter().find(|t| t["name"] == "email_get").unwrap();
    let required = get["inputSchema"]["required"].as_array().unwrap();
    assert!(
        required.iter().any(|v| v == "uid"),
        "email_get schema should require uid: {get}"
    );

    let send = tools.iter().find(|t| t["name"] == "email_send").unwrap();
    assert_eq!(send["annotations"]["readOnlyHint"], false);
    let search = tools.iter().find(|t| t["name"] == "email_search").unwrap();
    assert_eq!(search["annotations"]["readOnlyHint"], true);
}

#[test]
fn tools_call_without_mailbox_headers_is_invalid_params() {
    let json = one(post(
        r#"{"jsonrpc":"2.0","id":3,"method":"tools/call",
            "params":{"name":"email_search","arguments":{}}}"#,
    ));
    assert_eq!(json["error"]["code"], -32602);
    assert_eq!(json["error"]["data"]["code"], "bad_request");
}

#[test]
fn tools_call_unknown_tool_is_invalid_params() {
    let json = one(post_as(
        r#"{"jsonrpc":"2.0","id":4,"method":"tools/call",
            "params":{"name":"email_delete","arguments":{}}}"#,
        None,
    ));
    assert_eq!(json["error"]["code"], -32602);
    assert!(json["error"]["message"].as_str().unwrap().contains("email_delete"));
}

#[test]
fn tools_call_malformed_arguments_is_invalid_params() {
    let json = one(post_as(
        r#"{"jsonrpc":"2.0","id":5,"method":"tools/call",
            "params":{"name":"email_get","arguments":{"uid":"not-a-number"}}}"#,
        None,
    ));
    assert_eq!(json["error"]["code"], -32602);
    assert_eq!(
        json["error"]["message"],
        "invalid arguments for email_get: uid is no number"
    );
}

#[test]
fn tools_call_parameters_have_to_be_there() {
    let json = one(post_as(r#"{"jsonrpc":"2.0","id":5,"method":"tools/call"}"#, None));
    assert_eq!(json["error"]["message"], "missing params for tools/call");
    let json = one(post_as(r#"{"jsonrpc":"2.0","id":5,"method":"tools/call","params":{}}"#, None));
    assert_eq!(json["error"]["message"], "invalid params: missing field `name`");
    assert_eq!(json["error"]["code"], -32602);
}

#[test]
fn unknown_method_is_method_not_found() {
    let json = one(post(r#"{"jsonrpc":"2.0","id":9,"method":"resources/list"}"#));
    assert_eq!(json["error"]["code"], -32601);
    assert_eq!(json["error"]["message"], "method not found: resources/list");
}

#[test]
fn non_json_body_is_parse_error() {
    let json = one(post("this is not json"));
    assert_eq!(json["error"]["code"], -32700);
    assert_eq!(json["id"], Value::Null);
}

#[test]
fn what_is_no_request_is_an_invalid_request() {
    for (body, id) in [
        ("7", Value::Null),
        ("[]", Value::Null),
        (r#"{"jsonrpc":"2.0","id":3}"#, Value::from(3)),
        (r#"{"jsonrpc":"1.0","id":"x","method":"ping"}"#, Value::from("x")),
    ] {
        let json = one(post(body));
        assert_eq!(json["error"]["code"], INVALID_REQUEST, "{body}");
        assert_eq!(json["id"], id, "{body}");
    }
    // Without an id there is nobody to answer.
    assert!(matches!(post(r#"{"jsonrpc":"1.0","method":"ping"}"#), HttpReply::Accepted));
    assert!(matches!(post("{}"), HttpReply::Accepted));
}

#[test]
fn batch_returns_one_response_per_request() {
    let reply = post(
        r#"[{"jsonrpc":"2.0","id":1,"method":"initialize","params":{}},
            {"jsonrpc":"2.0","id":2,"method":"ping"}]"#,
    );
    let responses: Vec<Value> = match &reply {
        HttpReply::Many(rs) => rs.iter().map(wire).collect(),
        other => panic!("an array was expected, not {other:?}"),
    };
    assert_eq!(responses.len(), 2);
    assert_eq!(responses[0]["id"], 1);
    assert_eq!(responses[1]["result"], Value::Object(serde_json::Map::new()));
}

#[test]
fn batch_of_only_notifications_gets_no_body() {
    let reply = post(
        r#"[{"jsonrpc":"2.0","method":"notifications/initialized"},
            {"jsonrpc":"2.0","method":"notifications/cancelled"}]"#,
    );
    assert!(matches!(reply, HttpReply::Accepted));
}

#[test]
fn batch_answers_stand_in_the_order_of_the_messages() {
    let reply = post_as(
        r#"[{"jsonrpc":"2.0","id":"a","method":"tools/call","params":{"name":"email_search"}},
            {"jsonrpc":"2.0","method":"notifications/initialized"},
            {"jsonrpc":"2.0","id":"b","method":"ping"},
            {"jsonrpc":"2.0","id":"c","method":"notifications/x"},
            {"jsonrpc":"2.0","id":"d","method":"tools/list"},
            {"jsonrpc":"2.0","id":"e"},
            {"method":"ping"}]"#,
        None,
    );
    let ids: Vec<Value> = match &reply {
        HttpReply::Many(rs) => rs.iter().map(|r| to_value(&r.id)).collect(),
        other => panic!("an array was expected, not {other:?}"),
    };
    assert_eq!(ids, ["a", "b", "d", "e"]);
    // One answer is an array all the same.
    let reply = post(r#"[{"jsonrpc":"2.0","id":1,"method":"ping"}]"#);
    assert!(matches!(&reply, HttpReply::Many(rs) if rs.len() == 1));
}

#[test]
fn mcp_requires_bearer_when_api_key_enforced() {
    let key = Some(Secret::new("the-key".to_string()));
    let err = require_gateway_access(true, &key, &HeaderMap::new()).unwrap_err();
    assert_eq!(err.status(), 401);
    assert_eq!(err.to_response().code, "unauthorized");
}

#[test]
fn mcp_accepts_correct_bearer() {
    let key = Some(Secret::new("the-key".to_string()));
    let mut headers = HeaderMap::new();
    headers.insert("Authorization", "Bearer the-key".parse().unwrap());
    assert!(require_gateway_access(true, &key, &headers).is_ok());
    let json = one(post(r#"{"jsonrpc":"2.0","id":1,"method":"initialize","params":{}}"#));
    assert_eq!(json["result"]["serverInfo"]["name"], "overfwd");
}

#[test]
fn a_failed_tool_is_a_result_that_says_so() {
    let err = GatewayError::NotFound("no \"such\"\nthing".to_string());
    let result = to_value(&tool_error(&err));
    assert_eq!(result["isError"], true);
    assert_eq!(result["content"][0]["type"], "text");
    assert_eq!(
        result["content"][0]["text"],
        "{\"code\":\"not_found\",\"message\":\"no \\\"such\\\"\\nthing\"}"
    );
    let by_parts = tool_failure("\"not_found\"", "\"no \\\"such\\\"\\nthing\"");
    assert_eq!(to_value(&by_parts), result);
    let json = wire(&tool_response(Json::Number("4".to_string()), Err(err)));
    assert!(json.get("error").is_none());
    assert_eq!(json["result"], result);
    let result = to_value(&tool_success("[1]".to_string()));
    assert_eq!(result["isError"], false);
    assert_eq!(result["content"][0]["text"], "[1]");
}

#[test]
fn error_bodies_are_escaped() {
    for (message, shown) in [
        ("\"\\/", r#"\"\\/"#),
        ("\u{8}\t\n\u{c}\r", r"\b\t\n\f\r"),
        ("\u{0}\u{1f}\u{1a}\u{b}", r"\u0000\u001f\u001a\u000b"),
        ("\u{7f}\u{e9}\u{1f600}", "\u{7f}\u{e9}\u{1f600}"),
        ("", ""),
    ] {
        let result = to_value(&tool_error(&GatewayError::BadRequest(message.to_string())));
        let text = format!("{{\"code\":\"bad_request\",\"message\":\"{shown}\"}}");
        assert_eq!(result["content"][0]["text"], text);
    }
}

#[test]
fn json_members_are_found_by_key() {
    let j = of_value(&serde_json::from_str(r#"{"a":"x","b":[1]}"#).unwrap());
    assert_eq!(j.get("a").and_then(|v| v.as_text()), Some("x"));
    assert!(j.get("b").unwrap().as_text().is_none());
    assert!(j.get("c").is_none());
    assert!(Json::Null.get("a").is_none());
}

#[test]
fn the_api_describes_both_axes() {
    let schemes = security_schemes();
    let names: Vec<&str> = schemes.iter().map(|s| s.name).collect();
    assert_eq!(
        names,
        ["gateway_api_key", "mailbox_auth", "mailbox_imap", "mailbox_smtp", "mailbox_domain"]
    );
    assert_eq!(schemes[0].kind, SchemeKind::Bearer);
    assert_eq!(schemes[1].kind, SchemeKind::Header("X-Mailbox-Auth"));
    assert_eq!(schemes[4].kind, SchemeKind::Header("X-Mailbox-Domain"));
}
