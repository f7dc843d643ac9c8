//! JSON-RPC requests, from arrival to reply.

use vstd::prelude::*;

use crate::api::protocol::{ApiRequest, ApiResponse, RequestView, ResponseView};
use crate::mcp::json::{self, Json};
use crate::mcp::protocol::{
    JsonRpcRequest, JsonRpcResponse, RpcErrorView, RpcRequestView, RpcResponseView,
};
use crate::mcp::tools::{
    self, response_to_text, tool_call_to_request, tool_definitions,
};
use crate::text;

verus! {

/// A transport to the daemon command API (real: TCP; test: mock).
pub trait DaemonClient {
    /// Whether this client, asked to send `req` to the daemon, may bring that reply
    /// and be `after` then. A client that says nothing may bring any reply.
    open spec fn may_step(
        &self,
        req: RequestView,
        reply: Result<ResponseView, text::Text>,
        after: &Self,
    ) -> bool {
        true
    }

    /// Send a request and wait for the response. The error says what went wrong
    /// on the way.
    fn request(&mut self, req: ApiRequest) -> (r: Result<ApiResponse, String>)
        ensures
            old(self).may_step(req@, reply_view(r), final(self)),
    ;
}

/// A daemon's reply as the contracts see it.
pub open spec fn reply_view(r: Result<ApiResponse, String>) -> Result<ResponseView, text::Text> {
    match r {
        Ok(resp) => Ok(resp@),
        Err(e) => Err(e@),
    }
}

/// What is to be done about a JSON-RPC request.
pub enum Plan {
    /// Nothing: it is a notification.
    Silence,
    /// Reply at once.
    Reply(RpcResponseView),
    /// Ask the daemon, and reply with what it says.
    Ask(Json, RequestView),
}

/// What the server says of itself.
pub open spec fn server_info() -> Json {
    Json::Object(
        Map::empty().insert("protocolVersion"@, Json::Text("2024-11-05"@)).insert(
            "capabilities"@,
            Json::Object(Map::empty().insert("tools"@, Json::Object(Map::empty()))),
        ).insert(
            "serverInfo"@,
            Json::Object(
                Map::empty().insert("name"@, Json::Text("snakewood"@)).insert(
                    "version"@,
                    Json::Text("0.1.0"@),
                ),
            ),
        ),
    )
}

/// The payload of a tool result.
pub open spec fn tool_payload(t: text::Text, is_error: bool) -> Json {
    Json::Object(
        Map::empty().insert(
            "content"@,
            Json::Array(
                seq![
                    Json::Object(
                        Map::empty().insert("type"@, Json::Text("text"@)).insert(
                            "text"@,
                            Json::Text(t),
                        ),
                    ),
                ],
            ),
        ).insert("isError"@, Json::Bool(is_error)),
    )
}

/// The tool that the parameters of a call name, and its arguments.
pub open spec fn call_in(params: Option<Json>) -> (text::Text, Json) {
    let p = match params {
        Some(p) => p,
        None => Json::Null,
    };
    (
        match json::text_field(p, "name"@) {
            Some(name) => name,
            None => ""@,
        },
        match json::field(p, "arguments"@) {
            Some(args) => args,
            None => Json::Object(Map::empty()),
        },
    )
}

/// What is to be done about a request. Notifications get no reply; a tool call
/// that makes no request is answered at once.
pub open spec fn planned(req: RpcRequestView, session: u64) -> Plan {
    match req.id {
        None => Plan::Silence,
        Some(id) => if req.method == "initialize"@ {
            Plan::Reply(RpcResponseView::success(id, server_info()))
        } else if req.method == "tools/list"@ {
            Plan::Reply(RpcResponseView::success(id, tools::tool_list()))
        } else if req.method == "tools/call"@ {
            let (name, args) = call_in(req.params);
            match tools::called(name, tools::args_in(args), session) {
                Ok(api_req) => Plan::Ask(id, api_req),
                Err(e) => Plan::Reply(RpcResponseView::success(id, tool_payload(e, true))),
            }
        } else {
            Plan::Reply(
                RpcResponseView::failure(id, -32601, "method not found: "@ + req.method),
            )
        },
    }
}

/// The reply to a tool call that was put to the daemon.
pub open spec fn concluded(id: Json, reply: Result<ResponseView, text::Text>) -> RpcResponseView {
    match reply {
        Ok(resp) => {
            let (t, is_error) = tools::response_text(resp);
            RpcResponseView::success(id, tool_payload(t, is_error))
        },
        Err(e) => RpcResponseView::success(id, tool_payload("daemon error: "@ + e, true)),
    }
}

fn describe_server() -> (r: serde_json::Value)
    ensures
        json::json_model(r) == server_info(),
{
    let versioned = json::with_field(
        json::empty_object(),
        "protocolVersion",
        json::string("2024-11-05"),
    );
    let capable = json::with_field(
        versioned,
        "capabilities",
        json::with_field(json::empty_object(), "tools", json::empty_object()),
    );
    let info = json::with_field(json::empty_object(), "name", json::string("snakewood"));
    json::with_field(
        capable,
        "serverInfo",
        json::with_field(info, "version", json::string("0.1.0")),
    )
}

/// Build an MCP `tools/call` result payload.
fn tool_result(id: serde_json::Value, t: &str, is_error: bool) -> (r: JsonRpcResponse)
    ensures
        r@ == RpcResponseView::success(json::json_model(id), tool_payload(t@, is_error)),
{
    let typed = json::with_field(json::empty_object(), "type", json::string("text"));
    let item = json::with_field(typed, "text", json::string(t));
    let mut content: Vec<serde_json::Value> = Vec::new();
    content.push(item);
    assert(json::models(content@) =~= seq![json::json_model(item)]);
    let payload = json::with_field(json::empty_object(), "content", json::array(content));
    JsonRpcResponse::ok(id, json::with_field(payload, "isError", json::boolean(is_error)))
}

/// The request that a tool call stands for, or what is wrong with it.
fn read_call(params: Option<&serde_json::Value>, session: u64) -> (r: Result<ApiRequest, String>)
    ensures
        ({
            let (name, args) = call_in(
                match params {
                    Some(p) => Some(json::json_model(*p)),
                    None => None,
                },
            );
            tools::result_view(r) == tools::called(name, tools::args_in(args), session)
        }),
{
    let nothing = json::null();
    let p = match params {
        Some(p) => p,
        None => &nothing,
    };
    let name = match json::get_text(p, "name") {
        Some(name) => name,
        None => "",
    };
    let empty = json::empty_object();
    let args = match json::get(p, "arguments") {
        Some(args) => args,
        None => &empty,
    };
    tool_call_to_request(name, args, session)
}

/// The reply to a tool call that was put to the daemon.
pub fn conclude(id: serde_json::Value, reply: Result<ApiResponse, String>) -> (r: JsonRpcResponse)
    ensures
        r@ == concluded(json::json_model(id), reply_view(reply)),
{
    match reply {
        Ok(resp) => {
            let (t, is_error) = response_to_text(&resp);
            tool_result(id, t.as_str(), is_error)
        },
        Err(e) => tool_result(id, text::join_two("daemon error: ", e.as_str()).as_str(), true),
    }
}

/// Handle one JSON-RPC request. Returns `None` for notifications (no reply). A
/// tool call that stands for a request has the client send that request, once;
/// nothing else makes the client send anything.
pub fn dispatch_rpc<C: DaemonClient>(req: &JsonRpcRequest, session: u64, client: &mut C) -> (r:
    Option<JsonRpcResponse>)
    ensures
        match planned(req@, session) {
            Plan::Silence => r is None && *final(client) == *old(client),
            Plan::Reply(response) => r matches Some(x) && x@ == response && *final(client)
                == *old(client),
            Plan::Ask(id, api_req) => exists|reply: Result<ResponseView, text::Text>|
                #[trigger] old(client).may_step(api_req, reply, final(client)) && (
                r matches Some(x) && x@ == concluded(id, reply)),
        },
{
    // Notifications (no id) get no response.
    let id = match &req.id {
        Some(id) => json::copy_of(id),
        None => {
            return None;
        },
    };
    if text::same(req.method.as_str(), "initialize") {
        return Some(JsonRpcResponse::ok(id, describe_server()));
    }
    if text::same(req.method.as_str(), "tools/list") {
        return Some(JsonRpcResponse::ok(id, tool_definitions()));
    }
    if text::same(req.method.as_str(), "tools/call") {
        let api_req = match read_call(req.params.as_ref(), session) {
            Ok(api_req) => api_req,
            Err(e) => {
                return Some(tool_result(id, e.as_str(), true));
            },
        };
        let reply = client.request(api_req);
        return Some(conclude(id, reply));
    }
    Some(
        JsonRpcResponse::error(
            id,
            -32601,
            text::join_two("method not found: ", req.method.as_str()),
        ),
    )
}

// ---------------------------------------------------------------------------
// Laws
// ---------------------------------------------------------------------------

/// A notification never gets a reply, nor does it reach the daemon.
pub proof fn lemma_notifications_get_no_reply(req: RpcRequestView, session: u64)
    requires
        req.id is None,
    ensures
        planned(req, session) is Silence,
{
}

/// A reply carries the id of its request, whatever the request is.
pub proof fn lemma_replies_carry_the_id(
    req: RpcRequestView,
    session: u64,
    reply: Result<ResponseView, text::Text>,
)
    requires
        req.id is Some,
    ensures
        match planned(req, session) {
            Plan::Silence => false,
            Plan::Reply(response) => response.id == req.id->0,
            Plan::Ask(id, _) => concluded(id, reply).id == req.id->0,
        },
{
}

/// A tool call that is no request is answered with an error of the tool, and the
/// daemon is not asked.
pub proof fn lemma_bad_tool_calls_are_not_forwarded(
    req: RpcRequestView,
    session: u64,
    e: text::Text,
)
    requires
        req.id is Some,
        req.method == "tools/call"@,
        tools::called(
            call_in(req.params).0,
            tools::args_in(call_in(req.params).1),
            session,
        ) == Err::<RequestView, text::Text>(e),
    ensures
        planned(req, session) == Plan::Reply(
            RpcResponseView::success(req.id->0, tool_payload(e, true)),
        ),
{
    reveal_strlit("initialize");
    reveal_strlit("tools/list");
    reveal_strlit("tools/call");
    assert("tools/call"@[6] != "tools/list"@[6]);
    assert("tools/call"@[0] != "initialize"@[0]);
}

/// A reply is either a result or an error, never both and never neither.
pub proof fn lemma_replies_are_results_or_errors(
    req: RpcRequestView,
    session: u64,
    reply: Result<ResponseView, text::Text>,
)
    ensures
        match planned(req, session) {
            Plan::Silence => true,
            Plan::Reply(response) => response.result is Some <==> response.error is None,
            Plan::Ask(id, _) => concluded(id, reply).result is Some && concluded(
                id,
                reply,
            ).error is None,
        },
{
}

/// Whether the value is a tool result with this text: one item of content, a text, and
/// the mark whether it is an error.
pub open spec fn tells(v: Option<Json>, t: text::Text, is_error: bool) -> bool {
    let content = tools::at(v->0, "content"@);
    let item = content->Array_0[0];
    &&& v is Some
    &&& v->0 is Object
    &&& tools::at(v->0, "isError"@) == Json::Bool(is_error)
    &&& content is Array
    &&& content->Array_0.len() == 1
    &&& item is Object
    &&& tools::at(item, "type"@) == Json::Text("text"@)
    &&& tools::at(item, "text"@) == Json::Text(t)
}

proof fn lemma_payload_tells(t: text::Text, is_error: bool)
    ensures
        tells(Some(tool_payload(t, is_error)), t, is_error),
{
    reveal_strlit("content");
    reveal_strlit("isError");
    reveal_strlit("type");
    reveal_strlit("text");
    assert("content"@[0] != "isError"@[0]);
    assert("type"@[1] != "text"@[1]);
}

/// How a request with an id is answered, by its method. The server tells its protocol
/// and its name, and that it has tools; it lists the tools; and a method that it does
/// not have is an error with the code for that.
pub proof fn lemma_methods(id: Json, params: Option<Json>, method: text::Text, session: u64)
    ensures
        ({
            let rpc = |m: text::Text|
                RpcRequestView { jsonrpc: "2.0"@, id: Some(id), method: m, params };
            let started = planned(rpc("initialize"@), session);
            let listed = planned(rpc("tools/list"@), session);
            let other = planned(rpc(method), session);
            &&& started is Reply
            &&& started->Reply_0.jsonrpc == "2.0"@
            &&& started->Reply_0.id == id
            &&& started->Reply_0.error is None
            &&& started->Reply_0.result is Some
            &&& tools::at(started->Reply_0.result->0, "protocolVersion"@) == Json::Text(
                "2024-11-05"@,
            )
            &&& tools::at(tools::at(started->Reply_0.result->0, "serverInfo"@), "name"@)
                == Json::Text("snakewood"@)
            &&& tools::at(
                started->Reply_0.result->0,
                "capabilities"@,
            )->Object_0.contains_key("tools"@)
            &&& listed == Plan::Reply(
                RpcResponseView {
                    jsonrpc: "2.0"@,
                    id,
                    result: Some(tools::tool_list()),
                    error: None,
                },
            )
            &&& method != "initialize"@ && method != "tools/list"@ && method != "tools/call"@
                ==> other == Plan::Reply(
                RpcResponseView {
                    jsonrpc: "2.0"@,
                    id,
                    result: None,
                    error: Some(
                        RpcErrorView { code: -32601, message: "method not found: "@ + method },
                    ),
                },
            )
        }),
{
    reveal_strlit("initialize");
    reveal_strlit("tools/list");
    reveal_strlit("tools/call");
    reveal_strlit("protocolVersion");
    reveal_strlit("capabilities");
    reveal_strlit("serverInfo");
    reveal_strlit("name");
    reveal_strlit("version");
    assert("tools/list"@[0] != "initialize"@[0]);
    assert("protocolVersion"@.len() == 15 && "capabilities"@.len() == 12 && "serverInfo"@.len()
        == 10);
    assert("name"@.len() == 4 && "version"@.len() == 7);
}

/// What is done about a tool call. One that names a tool and its arguments is put to the
/// daemon if they make a request, for this session; and if they make none, the answer is
/// a tool result that tells why, marked as an error.
pub proof fn lemma_tool_calls(
    id: Json,
    params: Map<text::Text, Json>,
    name: text::Text,
    session: u64,
)
    requires
        params.contains_key("name"@),
        params["name"@] == Json::Text(name),
        params.contains_key("arguments"@),
    ensures
        ({
            let req = RpcRequestView {
                jsonrpc: "2.0"@,
                id: Some(id),
                method: "tools/call"@,
                params: Some(Json::Object(params)),
            };
            match tools::called(name, tools::args_in(params["arguments"@]), session) {
                Ok(asked) => planned(req, session) == Plan::Ask(id, asked),
                Err(why) => {
                    let plan = planned(req, session);
                    &&& plan is Reply
                    &&& plan->Reply_0.jsonrpc == "2.0"@
                    &&& plan->Reply_0.id == id
                    &&& plan->Reply_0.error is None
                    &&& tells(plan->Reply_0.result, why, true)
                },
            }
        }),
{
    reveal_strlit("initialize");
    reveal_strlit("tools/list");
    reveal_strlit("tools/call");
    assert("tools/call"@[6] != "tools/list"@[6]);
    assert("tools/call"@[0] != "initialize"@[0]);
    match tools::called(name, tools::args_in(params["arguments"@]), session) {
        Ok(_) => {},
        Err(why) => {
            lemma_payload_tells(why, true);
        },
    }
}

/// How a tool call that was put to the daemon is answered: with the daemon's response in
/// words, marked as an error if it is one, or with what went wrong on the way.
pub proof fn lemma_what_the_daemon_said(id: Json, resp: ResponseView, why: text::Text)
    ensures
        ({
            let said = concluded(id, Ok(resp));
            let failed = concluded(id, Err(why));
            &&& said.jsonrpc == "2.0"@
            &&& said.id == id
            &&& said.error is None
            &&& tells(said.result, tools::response_text(resp).0, resp is Error)
            &&& failed.jsonrpc == "2.0"@
            &&& failed.id == id
            &&& failed.error is None
            &&& tells(failed.result, "daemon error: "@ + why, true)
        }),
{
    let (t, is_error) = tools::response_text(resp);
    lemma_payload_tells(t, is_error);
    lemma_payload_tells("daemon error: "@ + why, true);
}

/// What a tool call leaves out. Without arguments it is as if they were an empty object;
/// without a name, or without parameters, it names no tool, and nothing is asked of the
/// daemon.
pub proof fn lemma_incomplete_tool_calls(
    id: Json,
    params: Map<text::Text, Json>,
    name: text::Text,
    session: u64,
)
    ensures
        ({
            let rpc = |p: Option<Json>|
                RpcRequestView { jsonrpc: "2.0"@, id: Some(id), method: "tools/call"@, params: p };
            let full = params.insert("arguments"@, Json::Object(Map::empty()));
            let nameless = planned(rpc(Some(Json::Object(params))), session);
            let bare = planned(rpc(None), session);
            &&& !params.contains_key("arguments"@) ==> nameless == planned(
                rpc(Some(Json::Object(full))),
                session,
            )
            &&& !params.contains_key("name"@) ==> nameless is Reply && tells(
                nameless->Reply_0.result,
                "unknown tool: "@ + ""@,
                true,
            )
            &&& bare is Reply && tells(bare->Reply_0.result, "unknown tool: "@ + ""@, true)
        }),
{
    reveal_strlit("initialize");
    reveal_strlit("tools/list");
    reveal_strlit("tools/call");
    reveal_strlit("");
    reveal_strlit("name");
    reveal_strlit("arguments");
    reveal_strlit("snakewood_look");
    reveal_strlit("snakewood_move");
    reveal_strlit("snakewood_dig");
    assert("tools/call"@[6] != "tools/list"@[6]);
    assert("tools/call"@[0] != "initialize"@[0]);
    assert("name"@.len() == 4 && "arguments"@.len() == 9);
    assert(""@.len() == 0);
    lemma_payload_tells("unknown tool: "@ + ""@, true);
}

} // verus!
