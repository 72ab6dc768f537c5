//! The three actions as tools of the Model Context Protocol, over JSON-RPC 2.0.
//!
//! One POST carries one message or a batch. Each message is answered, passed over in
//! silence, or is a tool call that has to be run first. Nothing is kept between POSTs.
//!
//! What is wrong with a call before its tool runs, the mailbox credential among it, is a
//! JSON-RPC error. What the provider makes of it is a result that is marked as an error.

use vstd::prelude::*;

use crate::error;
use crate::error::{ErrorKind, GatewayError};
use crate::json;
use crate::json::{Json, JsonValue};
use crate::text;

verus! {

/// The protocol revision that is answered where the client's is not known.
pub const MCP_PROTOCOL_VERSION: &'static str = "2025-06-18";

/// The body is no JSON.
pub const PARSE_ERROR: i64 = -32700;

/// The body is no request.
pub const INVALID_REQUEST: i64 = -32600;

/// There is no such method.
pub const METHOD_NOT_FOUND: i64 = -32601;

/// The parameters do not fit the method.
pub const INVALID_PARAMS: i64 = -32602;

// ---------------------------------------------------------------------------
// Messages
// ---------------------------------------------------------------------------

/// A request, or a notification where there is no id.
#[derive(Debug)]
pub struct RpcRequest {
    pub jsonrpc: String,
    pub id: Option<Json>,
    pub method: String,
    pub params: Option<Json>,
}

/// A message of a POST: a request, or something else, with its id if it has one and what
/// is wrong with it.
#[derive(Debug)]
pub enum Incoming {
    Request(RpcRequest),
    Malformed { id: Option<Json>, detail: String },
}

/// A JSON-RPC error.
#[derive(Debug)]
pub struct RpcError {
    pub code: i64,
    pub message: String,
    pub data: Option<Json>,
}

/// What a request comes to: a result or an error, never both.
#[derive(Debug)]
pub enum RpcOutcome {
    Result(Json),
    Error(RpcError),
}

/// The answer to the request `id`.
#[derive(Debug)]
pub struct RpcResponse {
    pub id: Json,
    pub outcome: RpcOutcome,
}

/// What a request is.
#[verifier::ext_equal]
pub struct RequestValue {
    pub jsonrpc: Seq<char>,
    pub id: Option<JsonValue>,
    pub method: Seq<char>,
    pub params: Option<JsonValue>,
}

/// What a message is.
#[verifier::ext_equal]
pub enum IncomingValue {
    Request(RequestValue),
    Malformed { id: Option<JsonValue>, detail: Seq<char> },
}

/// What an outcome is.
#[verifier::ext_equal]
pub enum OutcomeValue {
    Result(JsonValue),
    Error { code: i64, message: Seq<char>, data: Option<JsonValue> },
}

/// What an answer is.
#[verifier::ext_equal]
pub struct ResponseValue {
    pub id: JsonValue,
    pub outcome: OutcomeValue,
}

impl DeepView for RpcRequest {
    type V = RequestValue;

    open spec fn deep_view(&self) -> RequestValue {
        RequestValue {
            jsonrpc: self.jsonrpc@,
            id: self.id.deep_view(),
            method: self.method@,
            params: self.params.deep_view(),
        }
    }
}

impl DeepView for Incoming {
    type V = IncomingValue;

    open spec fn deep_view(&self) -> IncomingValue {
        match *self {
            Incoming::Request(r) => IncomingValue::Request(r.deep_view()),
            Incoming::Malformed { id, detail } => IncomingValue::Malformed {
                id: id.deep_view(),
                detail: detail@,
            },
        }
    }
}

impl DeepView for RpcResponse {
    type V = ResponseValue;

    open spec fn deep_view(&self) -> ResponseValue {
        ResponseValue {
            id: self.id.deep_view(),
            outcome: match self.outcome {
                RpcOutcome::Result(j) => OutcomeValue::Result(j.deep_view()),
                RpcOutcome::Error(e) => OutcomeValue::Error {
                    code: e.code,
                    message: e.message@,
                    data: e.data.deep_view(),
                },
            },
        }
    }
}

/// A successful answer.
pub open spec fn success(id: JsonValue, result: JsonValue) -> ResponseValue {
    ResponseValue { id, outcome: OutcomeValue::Result(result) }
}

/// An error without data.
pub open spec fn failure(id: JsonValue, code: i64, message: Seq<char>) -> ResponseValue {
    ResponseValue { id, outcome: OutcomeValue::Error { code, message, data: None } }
}

fn ok_response(id: Json, result: Json) -> (r: RpcResponse)
    ensures
        r.deep_view() == success(id.deep_view(), result.deep_view()),
{
    RpcResponse { id, outcome: RpcOutcome::Result(result) }
}

fn error_response(id: Json, code: i64, message: String) -> (r: RpcResponse)
    ensures
        r.deep_view() == failure(id.deep_view(), code, message@),
{
    RpcResponse { id, outcome: RpcOutcome::Error(RpcError { code, message, data: None }) }
}

// ---------------------------------------------------------------------------
// initialize
// ---------------------------------------------------------------------------

/// The protocol revisions that are spoken.
pub open spec fn is_supported(v: Seq<char>) -> bool {
    v == "2025-06-18"@ || v == "2025-03-26"@ || v == "2024-11-05"@
}

/// The revision to speak: the client's where it is known, else the latest.
pub open spec fn negotiated(params: Option<JsonValue>) -> Seq<char> {
    match params {
        Some(p) => match json::member_of(p, "protocolVersion"@) {
            Some(JsonValue::Text(v)) => if is_supported(v) {
                v
            } else {
                MCP_PROTOCOL_VERSION@
            },
            _ => MCP_PROTOCOL_VERSION@,
        },
        None => MCP_PROTOCOL_VERSION@,
    }
}

/// The result of `initialize`: the revision, tools as the one capability, and the server.
pub open spec fn initialized(params: Option<JsonValue>, version: Seq<char>) -> JsonValue {
    JsonValue::Object(
        seq![
            ("protocolVersion"@, JsonValue::Text(negotiated(params))),
            (
                "capabilities"@,
                JsonValue::Object(
                    seq![
                        (
                            "tools"@,
                            JsonValue::Object(seq![("listChanged"@, JsonValue::Bool(false))]),
                        ),
                    ],
                ),
            ),
            (
                "serverInfo"@,
                JsonValue::Object(
                    seq![
                        ("name"@, JsonValue::Text("overfwd"@)),
                        ("version"@, JsonValue::Text(version)),
                    ],
                ),
            ),
        ],
    )
}

fn supported(v: &str) -> (r: bool)
    ensures
        r == is_supported(v@),
{
    text::same(v, "2025-06-18") || text::same(v, "2025-03-26") || text::same(v, "2024-11-05")
}

fn negotiate(params: &Option<Json>) -> (r: String)
    ensures
        r@ == negotiated(params.deep_view()),
{
    if let Some(p) = params {
        if let Some(requested) = p.get("protocolVersion") {
            if let Some(v) = requested.as_text() {
                if supported(v) {
                    return v.to_owned();
                }
            }
        }
    }
    MCP_PROTOCOL_VERSION.to_owned()
}

/// The result of `initialize`, for a server of the given version.
pub fn initialize_result(params: &Option<Json>, version: &str) -> (r: Json)
    ensures
        r.deep_view() == initialized(params.deep_view(), version@),
{
    let tools = Json::empty_object().with("listChanged", Json::Bool(false));
    assert(tools.deep_view()->Object_0 =~= seq![("listChanged"@, JsonValue::Bool(false))]);
    let capabilities = Json::empty_object().with("tools", tools);
    assert(capabilities.deep_view()->Object_0 =~= seq![("tools"@, tools.deep_view())]);
    let server = Json::empty_object().with("name", Json::of_text("overfwd")).with(
        "version",
        Json::of_text(version),
    );
    assert(server.deep_view()->Object_0 =~= seq![
        ("name"@, JsonValue::Text("overfwd"@)),
        ("version"@, JsonValue::Text(version@)),
    ]);
    let r = Json::empty_object().with(
        "protocolVersion",
        Json::Text(negotiate(params)),
    ).with("capabilities", capabilities).with("serverInfo", server);
    assert(r.deep_view()->Object_0 =~= initialized(params.deep_view(), version@)->Object_0);
    r
}

// ---------------------------------------------------------------------------
// tools/list
// ---------------------------------------------------------------------------

/// The schemas of the three tools' arguments.
#[derive(Debug)]
pub struct ToolSchemas {
    pub search: Json,
    pub get: Json,
    pub send: Json,
}

/// What `ToolSchemas` hold, in the order search, get, send.
pub type SchemasValue = (JsonValue, JsonValue, JsonValue);

impl DeepView for ToolSchemas {
    type V = SchemasValue;

    open spec fn deep_view(&self) -> SchemasValue {
        (self.search.deep_view(), self.get.deep_view(), self.send.deep_view())
    }
}

/// A tool as it is listed.
pub open spec fn listed_tool(
    name: Seq<char>,
    description: Seq<char>,
    schema: JsonValue,
    read_only: bool,
) -> JsonValue {
    JsonValue::Object(
        seq![
            ("name"@, JsonValue::Text(name)),
            ("description"@, JsonValue::Text(description)),
            ("inputSchema"@, schema),
            (
                "annotations"@,
                JsonValue::Object(seq![("readOnlyHint"@, JsonValue::Bool(read_only))]),
            ),
        ],
    )
}

/// What `email_search` does.
pub const SEARCH_DESCRIPTION: &'static str = "Search a mailbox folder via IMAP using a raw IMAP SEARCH key (e.g. \"ALL\", \"UNSEEN\", \"SUBJECT \\\"hi\\\"\"). Returns newest-first message summaries, clamped to `limit`.";

/// What `email_get` does.
pub const GET_DESCRIPTION: &'static str = "Fetch one message by its mailbox-unique `uid` (from a prior email_search): headers plus decoded text/html body.";

/// What `email_send` does.
pub const SEND_DESCRIPTION: &'static str = "Build a message and submit it over the caller's SMTP mailbox. Returns the To/From/Subject and a clamped body preview.";

/// The result of `tools/list`: the three tools, of which only `email_send` writes.
pub open spec fn listed_tools(s: SchemasValue) -> JsonValue {
    JsonValue::Object(
        seq![
            (
                "tools"@,
                JsonValue::Array(
                    seq![
                        listed_tool("email_search"@, SEARCH_DESCRIPTION@, s.0, true),
                        listed_tool("email_get"@, GET_DESCRIPTION@, s.1, true),
                        listed_tool("email_send"@, SEND_DESCRIPTION@, s.2, false),
                    ],
                ),
            ),
        ],
    )
}

fn tool_entry(name: &str, description: &str, schema: Json, read_only: bool) -> (r: Json)
    ensures
        r.deep_view() == listed_tool(name@, description@, schema.deep_view(), read_only),
{
    let annotations = Json::empty_object().with("readOnlyHint", Json::Bool(read_only));
    assert(annotations.deep_view()->Object_0 =~= seq![
        ("readOnlyHint"@, JsonValue::Bool(read_only)),
    ]);
    let r = Json::empty_object().with("name", Json::of_text(name)).with(
        "description",
        Json::of_text(description),
    ).with("inputSchema", schema).with("annotations", annotations);
    assert(r.deep_view()->Object_0 =~= listed_tool(
        name@,
        description@,
        schema.deep_view(),
        read_only,
    )->Object_0);
    r
}

/// The result of `tools/list`.
pub fn tools_list(schemas: ToolSchemas) -> (r: Json)
    ensures
        r.deep_view() == listed_tools(schemas.deep_view()),
{
    let tools = Json::array3(
        tool_entry("email_search", SEARCH_DESCRIPTION, schemas.search, true),
        tool_entry("email_get", GET_DESCRIPTION, schemas.get, true),
        tool_entry("email_send", SEND_DESCRIPTION, schemas.send, false),
    );
    let r = Json::empty_object().with("tools", tools);
    assert(r.deep_view()->Object_0 =~= seq![("tools"@, tools.deep_view())]);
    r
}

// ---------------------------------------------------------------------------
// One message
// ---------------------------------------------------------------------------

/// What is to become of a message.
#[derive(Debug)]
pub enum HandlePlan {
    /// It gets no answer.
    Silent,
    /// It gets this answer.
    Reply(RpcResponse),
    /// It is the result of `tools/list`, for which the schemas are needed.
    ListTools(Json),
    /// It is a tool call with this id and these parameters.
    Call(Json, Option<Json>),
}

/// What a `HandlePlan` is.
#[verifier::ext_equal]
pub enum PlanValue {
    Silent,
    Reply(ResponseValue),
    ListTools(JsonValue),
    Call(JsonValue, Option<JsonValue>),
}

impl DeepView for HandlePlan {
    type V = PlanValue;

    open spec fn deep_view(&self) -> PlanValue {
        match *self {
            HandlePlan::Silent => PlanValue::Silent,
            HandlePlan::Reply(r) => PlanValue::Reply(r.deep_view()),
            HandlePlan::ListTools(id) => PlanValue::ListTools(id.deep_view()),
            HandlePlan::Call(id, params) => PlanValue::Call(id.deep_view(), params.deep_view()),
        }
    }
}

/// What is to become of the request `r` with the id `id`.
pub open spec fn request_plan(r: RequestValue, id: JsonValue, version: Seq<char>) -> PlanValue {
    if r.jsonrpc != "2.0"@ {
        PlanValue::Reply(failure(id, INVALID_REQUEST, "jsonrpc must be \"2.0\""@))
    } else if r.method == "initialize"@ {
        PlanValue::Reply(success(id, initialized(r.params, version)))
    } else if r.method == "ping"@ {
        PlanValue::Reply(success(id, JsonValue::Object(Seq::empty())))
    } else if r.method == "tools/list"@ {
        PlanValue::ListTools(id)
    } else if r.method == "tools/call"@ {
        PlanValue::Call(id, r.params)
    } else if text::has_prefix(r.method, "notifications/"@) {
        PlanValue::Silent
    } else {
        PlanValue::Reply(failure(id, METHOD_NOT_FOUND, "method not found: "@ + r.method))
    }
}

/// What is to become of a message. What has no id gets no answer, whatever it is.
pub open spec fn handled(m: IncomingValue, version: Seq<char>) -> PlanValue {
    match m {
        IncomingValue::Malformed { id, detail } => match id {
            Some(i) => PlanValue::Reply(
                failure(i, INVALID_REQUEST, "invalid request: "@ + detail),
            ),
            None => PlanValue::Silent,
        },
        IncomingValue::Request(r) => match r.id {
            Some(i) => request_plan(r, i, version),
            None => PlanValue::Silent,
        },
    }
}

/// What is to become of a message, for a server of the given version.
pub fn handle_one(message: Incoming, version: &str) -> (r: HandlePlan)
    ensures
        r.deep_view() == handled(message.deep_view(), version@),
{
    let request = match message {
        Incoming::Malformed { id, detail } => {
            return match id {
                Some(i) => HandlePlan::Reply(
                    error_response(
                        i,
                        INVALID_REQUEST,
                        text::concat("invalid request: ", detail.as_str()),
                    ),
                ),
                None => HandlePlan::Silent,
            };
        },
        Incoming::Request(request) => request,
    };
    let id = match request.id {
        Some(id) => id,
        None => {
            return HandlePlan::Silent;
        },
    };
    let method = request.method.as_str();
    if !text::same(request.jsonrpc.as_str(), "2.0") {
        HandlePlan::Reply(
            error_response(id, INVALID_REQUEST, "jsonrpc must be \"2.0\"".to_owned()),
        )
    } else if text::same(method, "initialize") {
        HandlePlan::Reply(ok_response(id, initialize_result(&request.params, version)))
    } else if text::same(method, "ping") {
        HandlePlan::Reply(ok_response(id, Json::empty_object()))
    } else if text::same(method, "tools/list") {
        HandlePlan::ListTools(id)
    } else if text::same(method, "tools/call") {
        HandlePlan::Call(id, request.params)
    } else if text::starts_with(text::to_chars(method).as_slice(), "notifications/") {
        HandlePlan::Silent
    } else {
        HandlePlan::Reply(
            error_response(id, METHOD_NOT_FOUND, text::concat("method not found: ", method)),
        )
    }
}

/// The answer to `tools/list`.
pub fn list_response(id: Json, schemas: ToolSchemas) -> (r: RpcResponse)
    ensures
        r.deep_view() == success(id.deep_view(), listed_tools(schemas.deep_view())),
{
    ok_response(id, tools_list(schemas))
}

// ---------------------------------------------------------------------------
// tools/call
// ---------------------------------------------------------------------------

/// The tools.
#[derive(Debug, Clone, Copy, PartialEq, Eq, Structural)]
pub enum Tool {
    Search,
    Get,
    Send,
}

/// The parameters of a call, as far as they could be read.
#[derive(Debug)]
pub enum CallParams {
    /// There are none.
    Missing,
    /// They could not be read, with the reason.
    Unreadable(String),
    /// The name of the tool.
    Named(String),
}

/// What `CallParams` are.
#[verifier::ext_equal]
pub enum ParamsValue {
    Missing,
    Unreadable(Seq<char>),
    Named(Seq<char>),
}

impl DeepView for CallParams {
    type V = ParamsValue;

    open spec fn deep_view(&self) -> ParamsValue {
        match *self {
            CallParams::Missing => ParamsValue::Missing,
            CallParams::Unreadable(why) => ParamsValue::Unreadable(why@),
            CallParams::Named(name) => ParamsValue::Named(name@),
        }
    }
}

/// What is to become of a call: an error, or a tool to run.
#[derive(Debug)]
pub enum CallPlan {
    Reply(RpcResponse),
    Run(Json, Tool),
}

/// What a `CallPlan` is.
#[verifier::ext_equal]
pub enum CallPlanValue {
    Reply(ResponseValue),
    Run(JsonValue, Tool),
}

impl DeepView for CallPlan {
    type V = CallPlanValue;

    open spec fn deep_view(&self) -> CallPlanValue {
        match *self {
            CallPlan::Reply(r) => CallPlanValue::Reply(r.deep_view()),
            CallPlan::Run(id, tool) => CallPlanValue::Run(id.deep_view(), tool),
        }
    }
}

/// The tool of a name.
pub open spec fn tool_of(name: Seq<char>) -> Option<Tool> {
    if name == "email_search"@ {
        Some(Tool::Search)
    } else if name == "email_get"@ {
        Some(Tool::Get)
    } else if name == "email_send"@ {
        Some(Tool::Send)
    } else {
        None
    }
}

/// The name of a tool.
pub open spec fn tool_name(tool: Tool) -> Seq<char> {
    match tool {
        Tool::Search => "email_search"@,
        Tool::Get => "email_get"@,
        Tool::Send => "email_send"@,
    }
}

/// The JSON-RPC error for a credential that could not be had; its data carries the code.
pub open spec fn credential_failure(id: JsonValue, e: (ErrorKind, Seq<char>)) -> ResponseValue {
    ResponseValue {
        id,
        outcome: OutcomeValue::Error {
            code: INVALID_PARAMS,
            message: e.1,
            data: Some(
                JsonValue::Object(seq![("code"@, JsonValue::Text(error::code_text(e.0)))]),
            ),
        },
    }
}

/// What is to become of a call, given why there is no credential, if there is none. The
/// credential comes first, then the parameters, then the tool's name.
pub open spec fn called(
    id: JsonValue,
    no_credential: Option<(ErrorKind, Seq<char>)>,
    params: ParamsValue,
) -> CallPlanValue {
    match no_credential {
        Some(e) => CallPlanValue::Reply(credential_failure(id, e)),
        None => match params {
            ParamsValue::Missing => CallPlanValue::Reply(
                failure(id, INVALID_PARAMS, "missing params for tools/call"@),
            ),
            ParamsValue::Unreadable(why) => CallPlanValue::Reply(
                failure(id, INVALID_PARAMS, "invalid params: "@ + why),
            ),
            ParamsValue::Named(name) => match tool_of(name) {
                Some(tool) => CallPlanValue::Run(id, tool),
                None => CallPlanValue::Reply(
                    failure(id, INVALID_PARAMS, "unknown tool: "@ + name),
                ),
            },
        },
    }
}

fn gateway_protocol_error(id: Json, err: &GatewayError) -> (r: RpcResponse)
    ensures
        r.deep_view() == credential_failure(id.deep_view(), err@),
{
    let data = Json::empty_object().with("code", Json::of_text(err.code()));
    assert(data.deep_view()->Object_0 =~= seq![
        ("code"@, JsonValue::Text(error::code_text(err@.0))),
    ]);
    RpcResponse {
        id,
        outcome: RpcOutcome::Error(
            RpcError {
                code: INVALID_PARAMS,
                message: err.message().to_owned(),
                data: Some(data),
            },
        ),
    }
}

fn find_tool(name: &str) -> (r: Option<Tool>)
    ensures
        r == tool_of(name@),
{
    if text::same(name, "email_search") {
        Some(Tool::Search)
    } else if text::same(name, "email_get") {
        Some(Tool::Get)
    } else if text::same(name, "email_send") {
        Some(Tool::Send)
    } else {
        None
    }
}

/// What is to become of a call: `no_credential` says why there is no credential, if there
/// is none.
pub fn tools_call(id: Json, no_credential: Option<&GatewayError>, params: CallParams) -> (r:
    CallPlan)
    ensures
        r.deep_view() == called(
            id.deep_view(),
            match no_credential {
                Some(e) => Some(e@),
                None => None,
            },
            params.deep_view(),
        ),
{
    if let Some(e) = no_credential {
        return CallPlan::Reply(gateway_protocol_error(id, e));
    }
    match params {
        CallParams::Missing => CallPlan::Reply(
            error_response(id, INVALID_PARAMS, "missing params for tools/call".to_owned()),
        ),
        CallParams::Unreadable(why) => CallPlan::Reply(
            error_response(id, INVALID_PARAMS, text::concat("invalid params: ", why.as_str())),
        ),
        CallParams::Named(name) => match find_tool(name.as_str()) {
            Some(tool) => CallPlan::Run(id, tool),
            None => CallPlan::Reply(
                error_response(id, INVALID_PARAMS, text::concat("unknown tool: ", name.as_str())),
            ),
        },
    }
}

/// The error for arguments of a tool that could not be read.
pub fn arguments_error(id: Json, tool: Tool, why: &str) -> (r: RpcResponse)
    ensures
        r.deep_view() == failure(
            id.deep_view(),
            INVALID_PARAMS,
            "invalid arguments for "@ + tool_name(tool) + ": "@ + why@,
        ),
{
    let name = match tool {
        Tool::Search => "email_search",
        Tool::Get => "email_get",
        Tool::Send => "email_send",
    };
    let mut m = text::concat3("invalid arguments for ", name, ": ");
    m.append(why);
    error_response(id, INVALID_PARAMS, m)
}

/// The result of a tool: one piece of text, and whether it is an error.
pub open spec fn tool_result(content: Seq<char>, is_error: bool) -> JsonValue {
    JsonValue::Object(
        seq![
            (
                "content"@,
                JsonValue::Array(
                    seq![
                        JsonValue::Object(
                            seq![
                                ("type"@, JsonValue::Text("text"@)),
                                ("text"@, JsonValue::Text(content)),
                            ],
                        ),
                    ],
                ),
            ),
            ("isError"@, JsonValue::Bool(is_error)),
        ],
    )
}

/// The text of an error's body, given the JSON texts of its code and its message:
/// `{"code":...,"message":...}`.
pub open spec fn body_text(code: Seq<char>, message: Seq<char>) -> Seq<char> {
    "{\"code\":"@ + code + ",\"message\":"@ + message + "}"@
}

/// The text of an error's body.
pub open spec fn error_body(e: (ErrorKind, Seq<char>)) -> Seq<char> {
    body_text(json::string_text(error::code_text(e.0)), json::string_text(e.1))
}

/// What a tool that ran is answered with: the text of its payload, or its error, marked as
/// one. The call itself succeeds either way.
pub open spec fn tool_answer(
    id: JsonValue,
    outcome: Result<Seq<char>, (ErrorKind, Seq<char>)>,
) -> ResponseValue {
    match outcome {
        Ok(payload) => success(id, tool_result(payload, false)),
        Err(e) => success(id, tool_result(error_body(e), true)),
    }
}

fn result_object(content: String, is_error: bool) -> (r: Json)
    ensures
        r.deep_view() == tool_result(content@, is_error),
{
    let piece = Json::empty_object().with("type", Json::of_text("text")).with(
        "text",
        Json::Text(content),
    );
    assert(piece.deep_view()->Object_0 =~= seq![
        ("type"@, JsonValue::Text("text"@)),
        ("text"@, JsonValue::Text(content@)),
    ]);
    let r = Json::empty_object().with("content", Json::array1(piece)).with(
        "isError",
        Json::Bool(is_error),
    );
    assert(r.deep_view()->Object_0 =~= tool_result(content@, is_error)->Object_0);
    r
}

/// The result of a tool that succeeded, with the text of its payload.
pub fn tool_success(payload: String) -> (r: Json)
    ensures
        r.deep_view() == tool_result(payload@, false),
{
    result_object(payload, false)
}

/// The result of a tool that failed, given the JSON texts of the error's code and message.
pub fn tool_failure(code: &str, message: &str) -> (r: Json)
    ensures
        r.deep_view() == tool_result(body_text(code@, message@), true),
{
    let mut body = text::concat3("{\"code\":", code, ",\"message\":");
    body.append(message);
    body.append("}");
    result_object(body, true)
}

/// The result of a tool that failed: its text is the error's body.
pub fn tool_error(err: &GatewayError) -> (r: Json)
    ensures
        r.deep_view() == tool_result(error_body(err@), true),
{
    tool_failure(
        json::write_string(err.code()).as_str(),
        json::write_string(err.message()).as_str(),
    )
}

/// The answer to a tool call that ran: `outcome` is the text of the payload, or the error.
pub fn tool_response(id: Json, outcome: Result<String, GatewayError>) -> (r: RpcResponse)
    ensures
        r.deep_view() == tool_answer(id.deep_view(), error::outcome(outcome)),
{
    match outcome {
        Ok(payload) => ok_response(id, tool_success(payload)),
        Err(e) => ok_response(id, tool_error(&e)),
    }
}

// ---------------------------------------------------------------------------
// The POST
// ---------------------------------------------------------------------------

/// The body of a POST.
#[derive(Debug)]
pub enum McpBody {
    /// It is no JSON, with the reason.
    Unreadable(String),
    /// An array of messages.
    Batch(Vec<Incoming>),
    /// An object.
    Single(Incoming),
    /// Any other JSON value.
    Other,
}

/// What is to become of a POST.
#[derive(Debug)]
pub enum McpPlan {
    /// It is answered with this alone.
    Reply(RpcResponse),
    /// Its messages are to be seen to, in their order; an array of answers if `batch`.
    Run { batch: bool, items: Vec<HandlePlan> },
}

/// What a POST is answered with.
#[derive(Debug)]
pub enum HttpReply {
    /// Accepted, without a body.
    Accepted,
    One(RpcResponse),
    Many(Vec<RpcResponse>),
}

/// What a POST is.
#[verifier::ext_equal]
pub enum BodyValue {
    Unreadable(Seq<char>),
    Batch(Seq<IncomingValue>),
    Single(IncomingValue),
    Other,
}

/// What an `McpPlan` is.
#[verifier::ext_equal]
pub enum McpPlanValue {
    Reply(ResponseValue),
    Run { batch: bool, items: Seq<PlanValue> },
}

/// What an `HttpReply` is.
#[verifier::ext_equal]
pub enum ReplyValue {
    Accepted,
    One(ResponseValue),
    Many(Seq<ResponseValue>),
}

impl DeepView for McpBody {
    type V = BodyValue;

    open spec fn deep_view(&self) -> BodyValue {
        match *self {
            McpBody::Unreadable(why) => BodyValue::Unreadable(why@),
            McpBody::Batch(items) => BodyValue::Batch(items.deep_view()),
            McpBody::Single(item) => BodyValue::Single(item.deep_view()),
            McpBody::Other => BodyValue::Other,
        }
    }
}

impl DeepView for McpPlan {
    type V = McpPlanValue;

    open spec fn deep_view(&self) -> McpPlanValue {
        match *self {
            McpPlan::Reply(r) => McpPlanValue::Reply(r.deep_view()),
            McpPlan::Run { batch, items } => McpPlanValue::Run { batch, items: items.deep_view() },
        }
    }
}

impl DeepView for HttpReply {
    type V = ReplyValue;

    open spec fn deep_view(&self) -> ReplyValue {
        match *self {
            HttpReply::Accepted => ReplyValue::Accepted,
            HttpReply::One(r) => ReplyValue::One(r.deep_view()),
            HttpReply::Many(rs) => ReplyValue::Many(rs.deep_view()),
        }
    }
}

/// What is to become of a POST.
pub open spec fn planned(body: BodyValue, version: Seq<char>) -> McpPlanValue {
    match body {
        BodyValue::Unreadable(why) => McpPlanValue::Reply(
            failure(JsonValue::Null, PARSE_ERROR, "parse error: "@ + why),
        ),
        BodyValue::Batch(items) => if items.len() == 0 {
            McpPlanValue::Reply(
                failure(JsonValue::Null, INVALID_REQUEST, "invalid request: empty batch"@),
            )
        } else {
            McpPlanValue::Run {
                batch: true,
                items: Seq::new(items.len(), |i: int| handled(items[i], version)),
            }
        },
        BodyValue::Single(item) => McpPlanValue::Run {
            batch: false,
            items: seq![handled(item, version)],
        },
        BodyValue::Other => McpPlanValue::Reply(
            failure(
                JsonValue::Null,
                INVALID_REQUEST,
                "invalid request: expected a JSON-RPC object or batch array"@,
            ),
        ),
    }
}

/// What a POST is answered with, once its messages have been seen to: nothing where none
/// is answered, else an array for a batch and the answer itself for a single message.
pub open spec fn replied(batch: bool, answers: Seq<ResponseValue>) -> ReplyValue {
    if answers.len() == 0 {
        ReplyValue::Accepted
    } else if batch {
        ReplyValue::Many(answers)
    } else {
        ReplyValue::One(answers[0])
    }
}

/// What is to become of a POST, for a server of the given version.
pub fn mcp_endpoint(body: McpBody, version: &str) -> (r: McpPlan)
    ensures
        r.deep_view() == planned(body.deep_view(), version@),
{
    match body {
        McpBody::Unreadable(why) => McpPlan::Reply(
            error_response(
                Json::Null,
                PARSE_ERROR,
                text::concat("parse error: ", why.as_str()),
            ),
        ),
        McpBody::Batch(messages) => {
            if messages.len() == 0 {
                return McpPlan::Reply(
                    error_response(
                        Json::Null,
                        INVALID_REQUEST,
                        "invalid request: empty batch".to_owned(),
                    ),
                );
            }
            let ghost own = messages@;
            let ghost all = messages.deep_view();
            let mut items: Vec<HandlePlan> = Vec::new();
            for message in it: messages
                invariant
                    it.seq() == own,
                    own.len() == all.len(),
                    forall|k: int| 0 <= k < own.len() ==> (#[trigger] own[k]).deep_view() == all[k],
                    items.deep_view() =~= Seq::new(
                        it.index() as nat,
                        |i: int| handled(all[i], version@),
                    ),
            {
                let ghost before = items.deep_view();
                assert(own[it.index() as int] == message);
                let one = handle_one(message, version);
                items.push(one);
                assert(items.deep_view() =~= before.push(one.deep_view()));
            }
            let r = McpPlan::Run { batch: true, items };
            assert(r.deep_view()->items =~= planned(body.deep_view(), version@)->items);
            r
        },
        McpBody::Single(message) => {
            let mut items: Vec<HandlePlan> = Vec::new();
            let one = handle_one(message, version);
            items.push(one);
            assert(items.deep_view() =~= seq![one.deep_view()]);
            McpPlan::Run { batch: false, items }
        },
        McpBody::Other => McpPlan::Reply(
            error_response(
                Json::Null,
                INVALID_REQUEST,
                "invalid request: expected a JSON-RPC object or batch array".to_owned(),
            ),
        ),
    }
}

/// What a POST is answered with, given the answers to its messages in their order.
pub fn finish(batch: bool, answers: Vec<RpcResponse>) -> (r: HttpReply)
    ensures
        r.deep_view() == replied(batch, answers.deep_view()),
{
    if answers.len() == 0 {
        return HttpReply::Accepted;
    }
    if batch {
        return HttpReply::Many(answers);
    }
    let mut answers = answers;
    let ghost all = answers.deep_view();
    let first = answers.swap_remove(0);
    assert(first.deep_view() == all[0]);
    HttpReply::One(first)
}

// ---------------------------------------------------------------------------
// The course of a POST
// ---------------------------------------------------------------------------

/// What has to be found out before a POST goes on: the answer to one of its messages.
#[derive(Debug)]
pub enum McpTask {
    /// The answer to `tools/list` with this id.
    ListTools(Json),
    /// The answer to a tool call with this id and these parameters.
    Call(Json, Option<Json>),
}

/// A POST on its way.
#[derive(Debug)]
pub struct McpRun {
    batch: bool,
    answers: Vec<RpcResponse>,
    /// The messages that are still to be seen to, the next one last.
    rest: Vec<HandlePlan>,
}

/// How a POST goes on.
#[derive(Debug)]
pub enum McpStep {
    /// The task is to be done, and its answer to be handed to the run.
    Ask(McpRun, McpTask),
    /// It is over, and answered with this.
    Done(HttpReply),
}

/// What an `McpTask` is.
#[verifier::ext_equal]
pub enum TaskValue {
    ListTools(JsonValue),
    Call(JsonValue, Option<JsonValue>),
}

/// What an `McpRun` is.
#[verifier::ext_equal]
pub struct McpRunValue {
    /// Whether the answers are an array.
    pub batch: bool,
    /// The answers so far.
    pub answers: Seq<ResponseValue>,
    /// The messages that are still to be seen to, in their order.
    pub rest: Seq<PlanValue>,
}

/// What an `McpStep` is.
#[verifier::ext_equal]
pub enum StepValue {
    Ask(McpRunValue, TaskValue),
    Done(ReplyValue),
}

impl DeepView for McpTask {
    type V = TaskValue;

    open spec fn deep_view(&self) -> TaskValue {
        match *self {
            McpTask::ListTools(id) => TaskValue::ListTools(id.deep_view()),
            McpTask::Call(id, params) => TaskValue::Call(id.deep_view(), params.deep_view()),
        }
    }
}

impl DeepView for McpRun {
    type V = McpRunValue;

    closed spec fn deep_view(&self) -> McpRunValue {
        McpRunValue {
            batch: self.batch,
            answers: self.answers.deep_view(),
            rest: self.rest.deep_view().reverse(),
        }
    }
}

impl DeepView for McpStep {
    type V = StepValue;

    open spec fn deep_view(&self) -> StepValue {
        match *self {
            McpStep::Ask(run, task) => StepValue::Ask(run.deep_view(), task.deep_view()),
            McpStep::Done(reply) => StepValue::Done(reply.deep_view()),
        }
    }
}

impl McpRunValue {
    /// How a POST goes on: its messages are seen to in their order until one needs a task.
    pub open spec fn next(self) -> StepValue
        decreases self.rest.len(),
    {
        if self.rest.len() == 0 {
            StepValue::Done(replied(self.batch, self.answers))
        } else {
            let after = McpRunValue { rest: self.rest.skip(1), ..self };
            match self.rest[0] {
                PlanValue::Silent => after.next(),
                PlanValue::Reply(r) => after.with(r).next(),
                PlanValue::ListTools(id) => StepValue::Ask(after, TaskValue::ListTools(id)),
                PlanValue::Call(id, params) => StepValue::Ask(after, TaskValue::Call(id, params)),
            }
        }
    }

    /// The run with one more answer.
    pub open spec fn with(self, r: ResponseValue) -> McpRunValue {
        McpRunValue { answers: self.answers.push(r), ..self }
    }
}

/// How a POST begins.
pub open spec fn begun(plan: McpPlanValue) -> StepValue {
    match plan {
        McpPlanValue::Reply(r) => StepValue::Done(ReplyValue::One(r)),
        McpPlanValue::Run { batch, items } => McpRunValue {
            batch,
            answers: Seq::empty(),
            rest: items,
        }.next(),
    }
}

impl McpPlan {
    /// How a POST begins.
    pub fn begin(self) -> (r: McpStep)
        ensures
            r.deep_view() == begun(self.deep_view()),
    {
        match self {
            McpPlan::Reply(r) => McpStep::Done(HttpReply::One(r)),
            McpPlan::Run { batch, items } => {
                let ghost all = items.deep_view();
                let mut items = items;
                let mut rest: Vec<HandlePlan> = Vec::new();
                while items.len() > 0
                    invariant
                        items.deep_view() =~= all.take(items.len() as int),
                        rest.deep_view() =~= all.skip(items.len() as int).reverse(),
                        items.len() <= all.len(),
                    decreases items.len(),
                {
                    let ghost before = rest.deep_view();
                    let ghost left = items.deep_view();
                    if let Some(plan) = items.pop() {
                        assert(plan.deep_view() == left.last());
                        rest.push(plan);
                        assert(items.deep_view() =~= left.drop_last());
                        assert(rest.deep_view() =~= before.push(plan.deep_view()));
                    }
                }
                let run = McpRun { batch, answers: Vec::new(), rest };
                assert(run.deep_view().rest =~= all);
                assert(run.deep_view().answers =~= Seq::empty());
                run.go_on()
            },
        }
    }
}

impl McpRun {
    fn go_on(self) -> (r: McpStep)
        ensures
            r.deep_view() == self.deep_view().next(),
    {
        let ghost start = self.deep_view();
        let mut run = self;
        while run.rest.len() > 0
            invariant
                start == self.deep_view(),
                run.deep_view().next() == start.next(),
            decreases run.rest.len(),
        {
            let ghost before = run.deep_view();
            let ghost stack = run.rest.deep_view();
            if let Some(plan) = run.rest.pop() {
                proof {
                    assert(run.rest.deep_view() =~= stack.drop_last());
                    assert(run.deep_view().rest =~= before.rest.skip(1));
                    assert(before.rest[0] == plan.deep_view());
                }
                let ghost after = run.deep_view();
                match plan {
                    HandlePlan::Silent => {},
                    HandlePlan::Reply(r) => {
                        run.answers.push(r);
                        assert(run.deep_view().answers =~= after.answers.push(r.deep_view()));
                    },
                    HandlePlan::ListTools(id) => {
                        return McpStep::Ask(run, McpTask::ListTools(id));
                    },
                    HandlePlan::Call(id, params) => {
                        return McpStep::Ask(run, McpTask::Call(id, params));
                    },
                }
            }
        }
        assert(run.deep_view().rest.len() == 0);
        McpStep::Done(finish(run.batch, run.answers))
    }

    /// How a POST goes on, given the answer that was asked for.
    pub fn answered(self, response: RpcResponse) -> (r: McpStep)
        ensures
            r.deep_view() == self.deep_view().with(response.deep_view()).next(),
    {
        let ghost before = self.deep_view();
        let mut run = self;
        run.answers.push(response);
        assert(run.deep_view().answers =~= before.answers.push(response.deep_view()));
        run.go_on()
    }
}

// ---------------------------------------------------------------------------
// Laws
// ---------------------------------------------------------------------------

/// The id of a message.
pub open spec fn id_of(m: IncomingValue) -> Option<JsonValue> {
    match m {
        IncomingValue::Request(r) => r.id,
        IncomingValue::Malformed { id, .. } => id,
    }
}

/// What has no id is never answered, and what is answered, at once or after a call, is
/// answered under its own id.
pub proof fn law_answers_carry_the_id(m: IncomingValue, version: Seq<char>)
    ensures
        id_of(m) is None ==> handled(m, version) == PlanValue::Silent,
        handled(m, version) matches PlanValue::Reply(r) ==> id_of(m) == Some(r.id),
        handled(m, version) matches PlanValue::ListTools(id) ==> id_of(m) == Some(id),
        handled(m, version) matches PlanValue::Call(id, p) ==> id_of(m) == Some(id),
{
}

/// A well-formed request with an id is passed over in silence only where its method is a
/// notification's.
pub proof fn law_requests_are_answered(r: RequestValue, version: Seq<char>)
    requires
        r.id is Some,
        r.jsonrpc == "2.0"@,
    ensures
        handled(IncomingValue::Request(r), version) == PlanValue::Silent ==> text::has_prefix(
            r.method,
            "notifications/"@,
        ),
{
}

/// Without a credential no tool runs, whatever is called; the error says why and carries
/// the stable code.
pub proof fn law_no_credential_no_tool(
    id: JsonValue,
    e: (ErrorKind, Seq<char>),
    params: ParamsValue,
)
    ensures
        called(id, Some(e), params) == CallPlanValue::Reply(credential_failure(id, e)),
{
}

/// A tool runs under exactly its own name.
pub proof fn law_tools_have_their_names(tool: Tool, name: Seq<char>)
    ensures
        tool_of(name) == Some(tool) <==> name == tool_name(tool),
{
    reveal_strlit("email_search");
    reveal_strlit("email_get");
    reveal_strlit("email_send");
    assert("email_search"@.len() == 12);
    assert("email_get"@.len() == 9);
    assert("email_send"@.len() == 10);
}

/// What a tool's failure is answered with is a success of the call, never a JSON-RPC
/// error, and it is marked as the tool's error exactly where the tool failed.
pub proof fn law_tool_failures_are_results(
    id: JsonValue,
    outcome: Result<Seq<char>, (ErrorKind, Seq<char>)>,
)
    ensures
        tool_answer(id, outcome).outcome matches OutcomeValue::Result(j) && json::member_of(
            j,
            "isError"@,
        ) == Some(JsonValue::Bool(outcome is Err)),
{
    reveal_strlit("content");
    reveal_strlit("isError");
    assert("content"@[0] != "isError"@[0]);
    let content = match outcome {
        Ok(p) => p,
        Err(e) => error_body(e),
    };
    let members = tool_result(content, outcome is Err)->Object_0;
    assert(members.skip(1)[0] == members[1]);
    reveal_with_fuel(json::first_member, 3);
}

/// A batch is seen to message by message: each gets what it would get alone, in its place.
pub proof fn law_batch_is_message_by_message(
    items: Seq<IncomingValue>,
    version: Seq<char>,
    i: int,
)
    requires
        0 <= i < items.len(),
    ensures
        planned(BodyValue::Batch(items), version) matches McpPlanValue::Run { batch, items: plans }
            && plans.len() == items.len() && planned(BodyValue::Single(items[i]), version)
            == (McpPlanValue::Run { batch: false, items: seq![plans[i]] }),
{
}

/// Whether `each` can be what the messages with these plans are answered with, message by
/// message: those that are silent with nothing, and those whose answer is known with it.
pub open spec fn fits(plans: Seq<PlanValue>, each: Seq<Option<ResponseValue>>) -> bool {
    plans.len() == each.len() && forall|i: int|
        0 <= i < plans.len() ==> match #[trigger] plans[i] {
            PlanValue::Silent => each[i] is None,
            PlanValue::Reply(r) => each[i] == Some(r),
            _ => each[i] is Some,
        }
}

/// The answers that there are, in their order.
pub open spec fn given(each: Seq<Option<ResponseValue>>) -> Seq<ResponseValue>
    decreases each.len(),
{
    if each.len() == 0 {
        Seq::empty()
    } else {
        match each[0] {
            Some(r) => seq![r] + given(each.skip(1)),
            None => given(each.skip(1)),
        }
    }
}

/// The answers among `each` that are asked for, in their order.
pub open spec fn asked_for(plans: Seq<PlanValue>, each: Seq<Option<ResponseValue>>) -> Seq<
    ResponseValue,
>
    decreases plans.len(),
{
    if plans.len() == 0 {
        Seq::empty()
    } else {
        let later = asked_for(plans.skip(1), each.skip(1));
        match plans[0] {
            PlanValue::Silent | PlanValue::Reply(_) => later,
            _ => seq![each[0]->0] + later,
        }
    }
}

/// What a POST ends with whose tasks are answered with `replies`, one by one; nothing where
/// they are too few.
pub open spec fn outcome_of(step: StepValue, replies: Seq<ResponseValue>) -> Option<ReplyValue>
    decreases replies.len(),
{
    match step {
        StepValue::Done(reply) => Some(reply),
        StepValue::Ask(run, _) => if replies.len() == 0 {
            None
        } else {
            outcome_of(run.with(replies[0]).next(), replies.skip(1))
        },
    }
}

proof fn lemma_run_collects(run: McpRunValue, each: Seq<Option<ResponseValue>>)
    requires
        fits(run.rest, each),
    ensures
        outcome_of(run.next(), asked_for(run.rest, each)) == Some(
            replied(run.batch, run.answers + given(each)),
        ),
    decreases run.rest.len(),
{
    if run.rest.len() == 0 {
        assert(run.answers + given(each) =~= run.answers);
    } else {
        let after = McpRunValue { rest: run.rest.skip(1), ..run };
        let later = each.skip(1);
        assert(fits(after.rest, later)) by {
            assert forall|i: int| 0 <= i < after.rest.len() implies match #[trigger] after.rest[i] {
                PlanValue::Silent => later[i] is None,
                PlanValue::Reply(r) => later[i] == Some(r),
                _ => later[i] is Some,
            } by {
                assert(after.rest[i] == run.rest[i + 1]);
            }
        }
        match each[0] {
            None => {
                lemma_run_collects(after, later);
            },
            Some(r) => {
                lemma_run_collects(after.with(r), later);
                assert(after.with(r).answers + given(later) =~= run.answers + given(each));
                let replies = asked_for(run.rest, each);
                if run.rest[0] is ListTools || run.rest[0] is Call {
                    assert(replies[0] == r);
                    assert(replies.skip(1) =~= asked_for(after.rest, later));
                }
            },
        }
    }
}

/// A batch is answered once for every message that is not passed over in silence, in the
/// order of the messages: the reply is the array of these answers, also where there is but
/// one, and it has no body where there are none. `each` is what the messages are answered
/// with, those that need a task among them.
pub proof fn law_batch_is_answered_in_order(
    items: Seq<IncomingValue>,
    version: Seq<char>,
    each: Seq<Option<ResponseValue>>,
)
    requires
        items.len() > 0,
        fits(planned(BodyValue::Batch(items), version)->items, each),
    ensures
        each.len() == items.len(),
        forall|i: int|
            0 <= i < items.len() ==> ((#[trigger] each[i]) is None <==> handled(items[i], version)
                == PlanValue::Silent),
        outcome_of(
            begun(planned(BodyValue::Batch(items), version)),
            asked_for(planned(BodyValue::Batch(items), version)->items, each),
        ) == Some(
            if given(each).len() == 0 {
                ReplyValue::Accepted
            } else {
                ReplyValue::Many(given(each))
            },
        ),
{
    let plans = planned(BodyValue::Batch(items), version)->items;
    let run = McpRunValue { batch: true, answers: Seq::empty(), rest: plans };
    lemma_run_collects(run, each);
    assert(run.answers + given(each) =~= given(each));
    assert forall|i: int| 0 <= i < items.len() implies ((#[trigger] each[i]) is None <==> handled(
        items[i],
        version,
    ) == PlanValue::Silent) by {
        assert(plans[i] == handled(items[i], version));
    }
}

/// A single message is answered with its own answer, and with nothing where it is passed
/// over in silence.
pub proof fn law_single_message_is_answered(
    item: IncomingValue,
    version: Seq<char>,
    own: Option<ResponseValue>,
)
    requires
        fits(seq![handled(item, version)], seq![own]),
    ensures
        outcome_of(
            begun(planned(BodyValue::Single(item), version)),
            asked_for(seq![handled(item, version)], seq![own]),
        ) == Some(
            match own {
                Some(r) => ReplyValue::One(r),
                None => ReplyValue::Accepted,
            },
        ),
{
    let run = McpRunValue {
        batch: false,
        answers: Seq::empty(),
        rest: seq![handled(item, version)],
    };
    lemma_run_collects(run, seq![own]);
    assert(seq![own].skip(1) =~= Seq::empty());
    assert(given(seq![own].skip(1)) =~= Seq::empty());
    if let Some(r) = own {
        assert(given(seq![own])[0] == r);
        assert((run.answers + given(seq![own]))[0] == r);
    }
}

/// The arguments' schema of a tool.
pub open spec fn schema_of(schemas: ToolSchemas, tool: Tool) -> JsonValue {
    match tool {
        Tool::Search => schemas.search.deep_view(),
        Tool::Get => schemas.get.deep_view(),
        Tool::Send => schemas.send.deep_view(),
    }
}

/// Where a tool stands in the list.
pub open spec fn listed_at(tool: Tool) -> int {
    match tool {
        Tool::Search => 0,
        Tool::Get => 1,
        Tool::Send => 2,
    }
}

proof fn lemma_entry(name: Seq<char>, description: Seq<char>, schema: JsonValue, read_only: bool)
    ensures
        ({
            let entry = listed_tool(name, description, schema, read_only);
            &&& json::member_of(entry, "name"@) == Some(JsonValue::Text(name))
            &&& json::member_of(entry, "description"@) == Some(JsonValue::Text(description))
            &&& json::member_of(entry, "inputSchema"@) == Some(schema)
            &&& json::member_of(entry, "annotations"@) matches Some(a) && json::member_of(
                a,
                "readOnlyHint"@,
            ) == Some(JsonValue::Bool(read_only))
        }),
{
    reveal_strlit("name");
    reveal_strlit("description");
    reveal_strlit("inputSchema");
    reveal_strlit("annotations");
    assert("name"@.len() == 4 && "description"@.len() == 11 && "inputSchema"@.len() == 11
        && "annotations"@.len() == 11);
    assert("description"@[0] == 'd' && "inputSchema"@[0] == 'i' && "annotations"@[0] == 'a');
    let entry = listed_tool(name, description, schema, read_only);
    let members = entry->Object_0;
    json::law_members_are_found_by_name(members, "name"@, 0);
    json::law_members_are_found_by_name(members, "description"@, 1);
    json::law_members_are_found_by_name(members, "inputSchema"@, 2);
    json::law_members_are_found_by_name(members, "annotations"@, 3);
    let hints = seq![("readOnlyHint"@, JsonValue::Bool(read_only))];
    json::law_members_are_found_by_name(hints, "readOnlyHint"@, 0);
}

/// Three tools are listed. The entry under a tool's name carries the schema of that same
/// tool's arguments, and says that the tool only reads exactly where it does not send.
pub proof fn law_every_tool_is_listed_with_its_own_schema(schemas: ToolSchemas, tool: Tool)
    ensures
        json::member_of(listed_tools(schemas.deep_view()), "tools"@) matches Some(
            JsonValue::Array(entries),
        ) && entries.len() == 3 && {
            let entry = entries[listed_at(tool)];
            &&& json::member_of(entry, "name"@) == Some(JsonValue::Text(tool_name(tool)))
            &&& json::member_of(entry, "inputSchema"@) == Some(schema_of(schemas, tool))
            &&& json::member_of(entry, "annotations"@) matches Some(a) && json::member_of(
                a,
                "readOnlyHint"@,
            ) == Some(JsonValue::Bool(tool != Tool::Send))
        },
{
    let s = schemas.deep_view();
    json::law_members_are_found_by_name(listed_tools(s)->Object_0, "tools"@, 0);
    lemma_entry("email_search"@, SEARCH_DESCRIPTION@, s.0, true);
    lemma_entry("email_get"@, GET_DESCRIPTION@, s.1, true);
    lemma_entry("email_send"@, SEND_DESCRIPTION@, s.2, false);
}

/// What `initialize` is answered with: the client's revision of the protocol where it is one
/// of the three that are spoken, and the newest otherwise; tools, whose list does not change,
/// as the one capability; and the server's name and version.
pub proof fn law_what_initialize_answers(params: Option<JsonValue>, version: Seq<char>)
    ensures
        ({
            let result = initialized(params, version);
            let spoken = seq!["2025-06-18"@, "2025-03-26"@, "2024-11-05"@];
            let asked = match params {
                Some(p) => json::member_of(p, "protocolVersion"@),
                None => None,
            };
            &&& json::member_of(result, "protocolVersion"@) matches Some(JsonValue::Text(v))
            &&& (asked matches Some(JsonValue::Text(a)) && spoken.contains(a)) ==> asked == Some(
                JsonValue::Text(v),
            )
            &&& !(asked matches Some(JsonValue::Text(a)) && spoken.contains(a)) ==> v == spoken[0]
            &&& json::member_of(result, "capabilities"@) matches Some(c)
            &&& json::member_of(c, "tools"@) matches Some(t)
            &&& json::member_of(t, "listChanged"@) == Some(JsonValue::Bool(false))
            &&& json::member_of(result, "serverInfo"@) matches Some(s)
            &&& json::member_of(s, "name"@) == Some(JsonValue::Text("overfwd"@))
            &&& json::member_of(s, "version"@) == Some(JsonValue::Text(version))
        }),
{
    reveal_strlit("protocolVersion");
    reveal_strlit("capabilities");
    reveal_strlit("serverInfo");
    reveal_strlit("name");
    reveal_strlit("version");
    assert("protocolVersion"@.len() == 15 && "capabilities"@.len() == 12 && "serverInfo"@.len()
        == 10);
    assert("name"@.len() == 4 && "version"@.len() == 7);
    let members = initialized(params, version)->Object_0;
    json::law_members_are_found_by_name(members, "protocolVersion"@, 0);
    json::law_members_are_found_by_name(members, "capabilities"@, 1);
    json::law_members_are_found_by_name(members, "serverInfo"@, 2);
    json::law_members_are_found_by_name(members[1].1->Object_0, "tools"@, 0);
    json::law_members_are_found_by_name(
        members[1].1->Object_0[0].1->Object_0,
        "listChanged"@,
        0,
    );
    json::law_members_are_found_by_name(members[2].1->Object_0, "name"@, 0);
    json::law_members_are_found_by_name(members[2].1->Object_0, "version"@, 1);
    let spoken = seq!["2025-06-18"@, "2025-03-26"@, "2024-11-05"@];
    assert(spoken[0] == "2025-06-18"@ && spoken[1] == "2025-03-26"@ && spoken[2] == "2024-11-05"@);
    if let Some(p) = params {
        if let Some(JsonValue::Text(a)) = json::member_of(p, "protocolVersion"@) {
            if spoken.contains(a) {
                let k = spoken.index_of(a);
                assert(spoken[k] == a);
            }
        }
    }
}

/// What a well-formed request with an id comes to, by its method: the four methods that are
/// known do their own, notifications are passed over, and every other method is answered
/// with the error that says so and names it.
pub proof fn law_every_method_does_its_own(r: RequestValue, id: JsonValue, version: Seq<char>)
    requires
        r.id == Some(id),
        r.jsonrpc == "2.0"@,
    ensures
        ({
            let plan = handled(IncomingValue::Request(r), version);
            &&& r.method == "initialize"@ ==> plan == PlanValue::Reply(
                success(id, initialized(r.params, version)),
            )
            &&& r.method == "ping"@ ==> plan == PlanValue::Reply(
                success(id, JsonValue::Object(Seq::empty())),
            )
            &&& r.method == "tools/list"@ ==> plan == PlanValue::ListTools(id)
            &&& r.method == "tools/call"@ ==> plan == PlanValue::Call(id, r.params)
            &&& text::has_prefix(r.method, "notifications/"@) ==> plan == PlanValue::Silent
            &&& r.method != "initialize"@ && r.method != "ping"@ && r.method != "tools/list"@
                && r.method != "tools/call"@ && !text::has_prefix(r.method, "notifications/"@) ==> (
            plan matches PlanValue::Reply(a) && (a.outcome matches OutcomeValue::Error {
                code,
                message,
                ..
            } && code == -32601 && text::has_suffix(message, r.method)))
        }),
{
    reveal_strlit("initialize");
    reveal_strlit("ping");
    reveal_strlit("tools/list");
    reveal_strlit("tools/call");
    reveal_strlit("notifications/");
    assert("initialize"@.len() == 10 && "ping"@.len() == 4 && "tools/list"@.len() == 10
        && "tools/call"@.len() == 10 && "notifications/"@.len() == 14);
    assert("initialize"@[0] == 'i' && "tools/list"@[0] == 't' && "tools/call"@[0] == 't');
    assert("tools/list"@[6] == 'l' && "tools/call"@[6] == 'c');
    text::law_prefix_and_suffix("method not found: "@, r.method);
}

/// A message with an id that is no request, or that does not speak the protocol's version,
/// is told that it is no valid request.
pub proof fn law_invalid_requests_are_told_so(m: IncomingValue, version: Seq<char>)
    requires
        id_of(m) is Some,
        m matches IncomingValue::Request(r) ==> r.jsonrpc != "2.0"@,
    ensures
        handled(m, version) matches PlanValue::Reply(a) && Some(a.id) == id_of(m) && (
        a.outcome matches OutcomeValue::Error { code, .. } && code == -32600),
{
}

/// A POST that is no JSON, an empty batch and a body that is neither an object nor an array
/// are each answered with one error under no id, and nothing is run for them.
pub proof fn law_bodies_that_hold_no_message(body: BodyValue, version: Seq<char>)
    requires
        body is Unreadable || body is Other || body == BodyValue::Batch(Seq::empty()),
    ensures
        planned(body, version) matches McpPlanValue::Reply(a) && a.id == JsonValue::Null && (
        a.outcome matches OutcomeValue::Error { code, .. } && code == if body is Unreadable {
            -32700i64
        } else {
            -32600i64
        }),
{
}

/// With a credential, a call runs the tool that it names, under its id; parameters that are
/// missing, unreadable or name no tool are told, under its id, to be invalid.
pub proof fn law_a_call_runs_the_tool_it_names(id: JsonValue, params: ParamsValue, tool: Tool)
    ensures
        params == ParamsValue::Named(tool_name(tool)) ==> called(id, None, params)
            == CallPlanValue::Run(id, tool),
        called(id, None, params) matches CallPlanValue::Run(i, t) ==> i == id && params
            == ParamsValue::Named(tool_name(t)),
        called(id, None, params) matches CallPlanValue::Reply(a) ==> a.id == id && (
        a.outcome matches OutcomeValue::Error { code, .. } && code == -32602),
{
    law_tools_have_their_names(tool, tool_name(tool));
    if let ParamsValue::Named(name) = params {
        law_tools_have_their_names(Tool::Search, name);
        law_tools_have_their_names(Tool::Get, name);
        law_tools_have_their_names(Tool::Send, name);
    }
}

/// The names under which the tools are called.
pub proof fn law_the_names_of_the_tools()
    ensures
        tool_name(Tool::Search) == "email_search"@,
        tool_name(Tool::Get) == "email_get"@,
        tool_name(Tool::Send) == "email_send"@,
{
}

/// Without a credential the caller is told why, in the error's own words, and its stable
/// code is in the data.
pub proof fn law_a_missing_credential_is_explained(
    id: JsonValue,
    e: (ErrorKind, Seq<char>),
    params: ParamsValue,
)
    ensures
        called(id, Some(e), params) matches CallPlanValue::Reply(a) && a.id == id && (
        a.outcome matches OutcomeValue::Error { code, message, data } && code == -32602 && message
            == e.1 && (data matches Some(d) && json::member_of(d, "code"@) == Some(
            JsonValue::Text(error::code_text(e.0)),
        ))),
{
    let members = seq![("code"@, JsonValue::Text(error::code_text(e.0)))];
    json::law_members_are_found_by_name(members, "code"@, 0);
}

/// The text that a tool's result holds.
pub open spec fn text_in(result: JsonValue) -> Option<JsonValue> {
    match json::member_of(result, "content"@) {
        Some(JsonValue::Array(pieces)) => if pieces.len() == 1 {
            json::member_of(pieces[0], "text"@)
        } else {
            None
        },
        _ => None,
    }
}

/// A tool's answer is one piece of text under the call's id: what the tool gave, as it is,
/// or the error's body, with its code and its message.
pub proof fn law_the_answer_holds_what_the_tool_gave(
    id: JsonValue,
    outcome: Result<Seq<char>, (ErrorKind, Seq<char>)>,
)
    ensures
        tool_answer(id, outcome).id == id,
        tool_answer(id, outcome).outcome matches OutcomeValue::Result(j) && text_in(j) == Some(
            JsonValue::Text(
                match outcome {
                    Ok(payload) => payload,
                    Err(e) => "{\"code\":"@ + json::string_text(error::code_text(e.0))
                        + ",\"message\":"@ + json::string_text(e.1) + "}"@,
                },
            ),
        ),
        tool_answer(id, outcome).outcome matches OutcomeValue::Result(j) && json::member_of(
            j,
            "content"@,
        ) matches Some(JsonValue::Array(pieces)) && pieces.len() == 1 && json::member_of(
            pieces[0],
            "type"@,
        ) == Some(JsonValue::Text("text"@)),
{
    reveal_strlit("type");
    reveal_strlit("text");
    assert("type"@[1] != "text"@[1]);
    let content = match outcome {
        Ok(p) => p,
        Err(e) => error_body(e),
    };
    let members = tool_result(content, outcome is Err)->Object_0;
    json::law_members_are_found_by_name(members, "content"@, 0);
    let piece = members[0].1->Array_0[0]->Object_0;
    json::law_members_are_found_by_name(piece, "type"@, 0);
    json::law_members_are_found_by_name(piece, "text"@, 1);
}

/// The entry of a tool describes what that tool does.
pub proof fn law_every_tool_is_described_as_what_it_does(schemas: ToolSchemas, tool: Tool)
    ensures
        json::member_of(listed_tools(schemas.deep_view()), "tools"@) matches Some(
            JsonValue::Array(entries),
        ) && json::member_of(entries[listed_at(tool)], "description"@) matches Some(
            JsonValue::Text(said),
        ) && match tool {
            Tool::Search => text::has_prefix(said, "Search a mailbox folder"@),
            Tool::Get => text::has_prefix(said, "Fetch one message by its mailbox-unique `uid`"@),
            Tool::Send => text::has_prefix(said, "Build a message and submit it"@),
        },
{
    let s = schemas.deep_view();
    json::law_members_are_found_by_name(listed_tools(s)->Object_0, "tools"@, 0);
    lemma_entry("email_search"@, SEARCH_DESCRIPTION@, s.0, true);
    lemma_entry("email_get"@, GET_DESCRIPTION@, s.1, true);
    lemma_entry("email_send"@, SEND_DESCRIPTION@, s.2, false);
    reveal_strlit("Search a mailbox folder");
    reveal_strlit("Fetch one message by its mailbox-unique `uid`");
    reveal_strlit("Build a message and submit it");
    reveal_strlit(
        "Search a mailbox folder via IMAP using a raw IMAP SEARCH key (e.g. \"ALL\", \"UNSEEN\", \"SUBJECT \\\"hi\\\"\"). Returns newest-first message summaries, clamped to `limit`.",
    );
    reveal_strlit(
        "Fetch one message by its mailbox-unique `uid` (from a prior email_search): headers plus decoded text/html body.",
    );
    reveal_strlit(
        "Build a message and submit it over the caller's SMTP mailbox. Returns the To/From/Subject and a clamped body preview.",
    );
    assert(SEARCH_DESCRIPTION@.take("Search a mailbox folder"@.len() as int)
        =~= "Search a mailbox folder"@);
    assert(GET_DESCRIPTION@.take("Fetch one message by its mailbox-unique `uid`"@.len() as int)
        =~= "Fetch one message by its mailbox-unique `uid`"@);
    assert(SEND_DESCRIPTION@.take("Build a message and submit it"@.len() as int)
        =~= "Build a message and submit it"@);
}

/// A POST is answered with all its answers in their order: a batch with an array even of
/// one, a single message with the answer itself, and nothing where there is none.
pub proof fn law_how_answers_are_sent(answers: Seq<ResponseValue>, one: ResponseValue)
    ensures
        replied(true, Seq::empty()) is Accepted,
        replied(false, Seq::empty()) is Accepted,
        answers.len() > 0 ==> replied(true, answers) == ReplyValue::Many(answers),
        replied(false, seq![one]) == ReplyValue::One(one),
{
}

/// What is said of a value is said of what it holds: every field and every case stands
/// under its own name, and nothing is left out.
pub proof fn law_views_say_what_the_values_hold(
    rpc_request: RpcRequest,
    incoming: Incoming,
    rpc_response: RpcResponse,
    handle_plan: HandlePlan,
    call_params: CallParams,
    call_plan: CallPlan,
    mcp_body: McpBody,
    mcp_plan: McpPlan,
    http_reply: HttpReply,
    mcp_task: McpTask,
    mcp_step: McpStep,
)
    ensures
        rpc_request.deep_view().jsonrpc == rpc_request.jsonrpc@,
        rpc_request.deep_view().id == rpc_request.id.deep_view(),
        rpc_request.deep_view().method == rpc_request.method@,
        rpc_request.deep_view().params == rpc_request.params.deep_view(),
        match incoming {
            Incoming::Request(r) => incoming.deep_view() == IncomingValue::Request(r.deep_view()),
            Incoming::Malformed { id, detail } => incoming.deep_view()
                == (IncomingValue::Malformed { id: id.deep_view(), detail: detail@ }),
        },
        rpc_response.deep_view().id == rpc_response.id.deep_view(),
        match rpc_response.outcome {
            RpcOutcome::Result(j) => rpc_response.deep_view().outcome == OutcomeValue::Result(
                j.deep_view(),
            ),
            RpcOutcome::Error(e) => rpc_response.deep_view().outcome == (OutcomeValue::Error {
                code: e.code,
                message: e.message@,
                data: e.data.deep_view(),
            }),
        },
        match handle_plan {
            HandlePlan::Silent => handle_plan.deep_view() == PlanValue::Silent,
            HandlePlan::Reply(r) => handle_plan.deep_view() == PlanValue::Reply(r.deep_view()),
            HandlePlan::ListTools(id) => handle_plan.deep_view()
                == PlanValue::ListTools(id.deep_view()),
            HandlePlan::Call(id, params) => handle_plan.deep_view()
                == PlanValue::Call(id.deep_view(), params.deep_view()),
        },
        match call_params {
            CallParams::Missing => call_params.deep_view() == ParamsValue::Missing,
            CallParams::Unreadable(why) => call_params.deep_view() == ParamsValue::Unreadable(why@),
            CallParams::Named(name) => call_params.deep_view() == ParamsValue::Named(name@),
        },
        match call_plan {
            CallPlan::Reply(r) => call_plan.deep_view() == CallPlanValue::Reply(r.deep_view()),
            CallPlan::Run(id, tool) => call_plan.deep_view()
                == CallPlanValue::Run(id.deep_view(), tool),
        },
        match mcp_body {
            McpBody::Unreadable(why) => mcp_body.deep_view() == BodyValue::Unreadable(why@),
            McpBody::Batch(items) => mcp_body.deep_view() == BodyValue::Batch(items.deep_view()),
            McpBody::Single(item) => mcp_body.deep_view() == BodyValue::Single(item.deep_view()),
            McpBody::Other => mcp_body.deep_view() == BodyValue::Other,
        },
        match mcp_plan {
            McpPlan::Reply(r) => mcp_plan.deep_view() == McpPlanValue::Reply(r.deep_view()),
            McpPlan::Run { batch, items } => mcp_plan.deep_view()
                == (McpPlanValue::Run { batch, items: items.deep_view() }),
        },
        match http_reply {
            HttpReply::Accepted => http_reply.deep_view() == ReplyValue::Accepted,
            HttpReply::One(r) => http_reply.deep_view() == ReplyValue::One(r.deep_view()),
            HttpReply::Many(rs) => http_reply.deep_view() == ReplyValue::Many(rs.deep_view()),
        },
        match mcp_task {
            McpTask::ListTools(id) => mcp_task.deep_view() == TaskValue::ListTools(id.deep_view()),
            McpTask::Call(id, params) => mcp_task.deep_view()
                == TaskValue::Call(id.deep_view(), params.deep_view()),
        },
        match mcp_step {
            McpStep::Ask(run, task) => mcp_step.deep_view()
                == StepValue::Ask(run.deep_view(), task.deep_view()),
            McpStep::Done(reply) => mcp_step.deep_view() == StepValue::Done(reply.deep_view()),
        },
{
}

} // verus!
