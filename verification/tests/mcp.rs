use serde_json::Value;

use snakewood::api::{build_drain_response, handle_api_request, ApiOutcome, ApiRequest, ApiResponse};
use snakewood::mcp::{
    after_reply, attached_session, dispatch_rpc, response_to_text, tool_call_to_request,
    tool_definitions, tool_request, with_session, DaemonClient, JsonRpcRequest, NextStep, ToolArgs,
};
use snakewood::{
    Direction, Engine, EntityId, ManualClock, PresentationNode, Realm, Room, SortedMap, World,
};

fn json(text: &str) -> Value {
    serde_json::from_str(text).unwrap()
}

/// A mock daemon: records the last request, returns a canned response.
struct MockClient {
    last: Option<ApiRequest>,
    reply: Result<ApiResponse, String>,
}

impl DaemonClient for MockClient {
    fn request(&mut self, req: ApiRequest) -> Result<ApiResponse, String> {
        self.last = Some(req);
        self.reply.clone()
    }
}

fn client(reply: ApiResponse) -> MockClient {
    MockClient { last: None, reply: Ok(reply) }
}

fn quiet() -> MockClient {
    client(ApiResponse::Okay { messages: vec![] })
}

fn rpc(method: &str, id: Option<i64>, params: Value) -> JsonRpcRequest {
    JsonRpcRequest {
        jsonrpc: "2.0".to_string(),
        id: id.map(Value::from),
        method: method.to_string(),
        params: Some(params),
    }
}

// --- dispatch -------------------------------------------------------------------

#[test]
fn initialize_returns_server_info() {
    let mut client = quiet();
    let resp = dispatch_rpc(&rpc("initialize", Some(1), Value::Null), 0, &mut client).unwrap();
    let v = resp.result.unwrap();
    assert_eq!(v["serverInfo"]["name"], "snakewood");
    assert_eq!(v["protocolVersion"], "2024-11-05");
}

#[test]
fn server_info_is_exact() {
    let resp = dispatch_rpc(&rpc("initialize", Some(1), Value::Null), 0, &mut quiet()).unwrap();
    assert_eq!(resp.jsonrpc, "2.0");
    assert_eq!(resp.id, Value::from(1));
    assert_eq!(
        resp.result,
        Some(json(
            r#"{"protocolVersion":"2024-11-05","capabilities":{"tools":{}},
                "serverInfo":{"name":"snakewood","version":"0.1.0"}}"#
        ))
    );
    assert!(resp.error.is_none());
}

#[test]
fn notification_yields_no_response() {
    let mut client = quiet();
    let n = JsonRpcRequest {
        jsonrpc: "2.0".to_string(),
        id: None,
        method: "notifications/initialized".to_string(),
        params: None,
    };
    assert!(dispatch_rpc(&n, 0, &mut client).is_none());
}

#[test]
fn a_notified_tool_call_is_not_forwarded() {
    let mut client = quiet();
    let params = json(r#"{"name": "snakewood_look"}"#);
    assert!(dispatch_rpc(&rpc("tools/call", None, params), 0, &mut client).is_none());
    assert!(client.last.is_none());
}

#[test]
fn tools_list_returns_three() {
    let mut client = quiet();
    let resp = dispatch_rpc(&rpc("tools/list", Some(2), Value::Null), 0, &mut client).unwrap();
    assert_eq!(resp.result.unwrap()["tools"].as_array().unwrap().len(), 3);
}

#[test]
fn tools_call_move_forwards_to_daemon_and_renders() {
    let mut client = client(ApiResponse::Okay {
        messages: vec![PresentationNode::RoomName("The Old Well".to_string())],
    });
    let params = json(r#"{"name": "snakewood_move", "arguments": {"direction": "north"}}"#);
    let resp = dispatch_rpc(&rpc("tools/call", Some(3), params), 7, &mut client).unwrap();
    // Forwarded the right ApiRequest (with our session).
    assert_eq!(
        client.last,
        Some(ApiRequest::Move { session: 7, direction: Direction::North })
    );
    // Rendered the daemon's view into the tool content.
    let v = resp.result.unwrap();
    assert_eq!(v["isError"], false);
    assert!(v["content"][0]["text"].as_str().unwrap().contains("The Old Well"));
}

#[test]
fn tools_call_bad_direction_is_tool_error_not_forwarded() {
    let mut client = quiet();
    let params = json(r#"{"name": "snakewood_move", "arguments": {"direction": "sideways"}}"#);
    let resp = dispatch_rpc(&rpc("tools/call", Some(4), params), 0, &mut client).unwrap();
    assert!(client.last.is_none()); // never reached the daemon
    assert_eq!(resp.result.unwrap()["isError"], true);
}

#[test]
fn tool_results_are_exact() {
    let mut ok = quiet();
    let call = rpc("tools/call", Some(9), json(r#"{"name": "snakewood_look"}"#));
    let resp = dispatch_rpc(&call, 5, &mut ok).unwrap();
    assert_eq!(ok.last, Some(ApiRequest::Look { session: 5 }));
    assert_eq!(
        resp.result,
        Some(json(r#"{"content":[{"type":"text","text":"OK"}],"isError":false}"#))
    );
    let mut refused = client(ApiResponse::Error { message: "unknown session 5".to_string() });
    let resp = dispatch_rpc(&call, 5, &mut refused).unwrap();
    assert_eq!(
        resp.result,
        Some(json(r#"{"content":[{"type":"text","text":"unknown session 5"}],"isError":true}"#))
    );
    let mut gone = MockClient { last: None, reply: Err("daemon closed".to_string()) };
    let resp = dispatch_rpc(&call, 5, &mut gone).unwrap();
    assert_eq!(
        resp.result,
        Some(json(
            r#"{"content":[{"type":"text","text":"daemon error: daemon closed"}],"isError":true}"#
        ))
    );
}

#[test]
fn calls_without_name_or_params_are_tool_errors() {
    for params in [None, Some(Value::Null), Some(json(r#"{"name": 3}"#))] {
        let mut client = quiet();
        let req = JsonRpcRequest {
            jsonrpc: "2.0".to_string(),
            id: Some(json(r#""abc""#)),
            method: "tools/call".to_string(),
            params,
        };
        let resp = dispatch_rpc(&req, 0, &mut client).unwrap();
        assert!(client.last.is_none());
        assert_eq!(resp.id, json(r#""abc""#));
        assert_eq!(
            resp.result,
            Some(json(r#"{"content":[{"type":"text","text":"unknown tool: "}],"isError":true}"#))
        );
    }
}

#[test]
fn unknown_method_is_jsonrpc_error() {
    let mut client = quiet();
    let resp = dispatch_rpc(&rpc("frobnicate", Some(5), Value::Null), 0, &mut client).unwrap();
    assert_eq!(resp.error.unwrap().code, -32601);
}

#[test]
fn unknown_method_is_named() {
    let resp = dispatch_rpc(&rpc("frobnicate", Some(5), Value::Null), 0, &mut quiet()).unwrap();
    assert_eq!(resp.error.unwrap().message, "method not found: frobnicate");
    assert!(resp.result.is_none());
}

// --- tools ----------------------------------------------------------------------

#[test]
fn move_tool_maps_to_request() {
    let req =
        tool_call_to_request("snakewood_move", &json(r#"{"direction": "north"}"#), 5).unwrap();
    assert_eq!(req, ApiRequest::Move { session: 5, direction: Direction::North });
}

#[test]
fn dig_tool_maps_all_fields() {
    let args = json(
        r#"{"direction":"east","id":"snakewood/hollow","name":"A Hollow","description":"Mossy."}"#,
    );
    let req = tool_call_to_request("snakewood_dig", &args, 1).unwrap();
    assert_eq!(
        req,
        ApiRequest::Dig {
            session: 1,
            direction: Direction::East,
            id: "snakewood/hollow".to_string(),
            name: "A Hollow".to_string(),
            description: "Mossy.".to_string(),
        }
    );
}

#[test]
fn unknown_tool_and_bad_direction_error() {
    assert!(tool_call_to_request("nope", &json("{}"), 0).is_err());
    assert!(
        tool_call_to_request("snakewood_move", &json(r#"{"direction":"sideways"}"#), 0).is_err()
    );
}

#[test]
fn tool_errors_say_what_is_missing() {
    let say = |name: &str, args: &str| tool_call_to_request(name, &json(args), 0);
    let err = |text: &str| Err::<ApiRequest, String>(text.to_string());
    assert_eq!(say("nope", "{}"), err("unknown tool: nope"));
    assert_eq!(say("snakewood_move", "{}"), err("missing 'direction'"));
    assert_eq!(say("snakewood_move", r#"{"direction": 7}"#), err("missing 'direction'"));
    assert_eq!(say("snakewood_move", r#"["direction"]"#), err("missing 'direction'"));
    assert_eq!(
        say("snakewood_move", r#"{"direction":"sideways"}"#),
        err("bad direction: sideways")
    );
    assert_eq!(
        say("snakewood_dig", r#"{"direction":"no","id":"a/b"}"#),
        err("bad direction: no")
    );
    assert_eq!(say("snakewood_dig", r#"{"direction":"n"}"#), err("missing 'id'"));
    assert_eq!(say("snakewood_dig", r#"{"direction":"n","id":"a/b"}"#), err("missing 'name'"));
    assert_eq!(
        say("snakewood_dig", r#"{"direction":"n","id":"a/b","name":"x"}"#),
        err("missing 'description'")
    );
    assert_eq!(
        say("snakewood_look", "null"),
        Ok(ApiRequest::Look { session: 0 })
    );
}

#[test]
fn tool_requests_need_no_json() {
    let args = ToolArgs { direction: Some(" Up "), id: None, name: None, description: None };
    assert_eq!(
        tool_request("snakewood_move", &args, 2),
        Ok(ApiRequest::Move { session: 2, direction: Direction::Up })
    );
    assert_eq!(tool_request("snakewood_dig", &args, 2), Err("missing 'id'".to_string()));
}

#[test]
fn response_text_marks_errors() {
    let (text, is_err) = response_to_text(&ApiResponse::Error { message: "boom".to_string() });
    assert_eq!(text, "boom");
    assert!(is_err);
    let (text, is_err) = response_to_text(&ApiResponse::Okay {
        messages: vec![PresentationNode::RoomName("The Old Well".to_string())],
    });
    assert!(text.contains("The Old Well"));
    assert!(!is_err);
}

#[test]
fn quiet_responses_say_ok() {
    let (text, is_err) = response_to_text(&ApiResponse::Okay { messages: vec![] });
    assert_eq!((text.as_str(), is_err), ("OK", false));
    let (text, is_err) = response_to_text(&ApiResponse::Connected {
        session: 1,
        actor: "a/b".to_string(),
        view: vec![],
    });
    assert_eq!((text.as_str(), is_err), ("", false));
}

#[test]
fn tool_definitions_lists_three_tools() {
    let defs = tool_definitions();
    let tools = defs["tools"].as_array().unwrap();
    assert_eq!(tools.len(), 3);
}

#[test]
fn tool_definitions_are_exact() {
    assert_eq!(
        tool_definitions(),
        json(
            r#"{
        "tools": [
            {
                "name": "snakewood_look",
                "description": "Look at the current room (name, description, exits, occupants).",
                "inputSchema": { "type": "object", "properties": {} }
            },
            {
                "name": "snakewood_move",
                "description": "Move the builder in a direction (north/south/east/west/up/down).",
                "inputSchema": {
                    "type": "object",
                    "properties": { "direction": { "type": "string" } },
                    "required": ["direction"]
                }
            },
            {
                "name": "snakewood_dig",
                "description": "Dig a new room in a direction, linked both ways, and persist it.",
                "inputSchema": {
                    "type": "object",
                    "properties": {
                        "direction": { "type": "string" },
                        "id": { "type": "string" },
                        "name": { "type": "string" },
                        "description": { "type": "string" }
                    },
                    "required": ["direction", "id", "name", "description"]
                }
            }
        ]
    }"#
        )
    );
}

// --- clients --------------------------------------------------------------------

#[test]
fn sessions_are_replaced_after_a_reconnect() {
    assert_eq!(
        with_session(ApiRequest::Look { session: 1 }, 9),
        ApiRequest::Look { session: 9 }
    );
    assert_eq!(
        with_session(ApiRequest::Move { session: 1, direction: Direction::Up }, 9),
        ApiRequest::Move { session: 9, direction: Direction::Up }
    );
    assert_eq!(
        with_session(
            ApiRequest::Dig {
                session: 1,
                direction: Direction::Up,
                id: "a/b".to_string(),
                name: "n".to_string(),
                description: "d".to_string(),
            },
            9
        ),
        ApiRequest::Dig {
            session: 9,
            direction: Direction::Up,
            id: "a/b".to_string(),
            name: "n".to_string(),
            description: "d".to_string(),
        }
    );
    assert_eq!(
        with_session(ApiRequest::Disconnect { session: 1 }, 9),
        ApiRequest::Disconnect { session: 9 }
    );
    assert_eq!(with_session(ApiRequest::Connect, 9), ApiRequest::Connect);
}

#[test]
fn only_a_connected_response_attaches() {
    let connected =
        ApiResponse::Connected { session: 12, actor: "a/b".to_string(), view: vec![] };
    assert_eq!(attached_session(&connected), Some(12));
    assert_eq!(attached_session(&ApiResponse::Okay { messages: vec![] }), None);
}

/// A daemon in the same process, ticking once for each request that waits.
struct LocalDaemon {
    engine: Engine,
}

impl DaemonClient for LocalDaemon {
    fn request(&mut self, req: ApiRequest) -> Result<ApiResponse, String> {
        let start = EntityId::new("snakewood/clearing").unwrap();
        match handle_api_request(&mut self.engine, req, &start) {
            ApiOutcome::Ready(response) => Ok(response),
            ApiOutcome::AwaitDrain { session, shape, .. } => {
                self.engine.tick();
                let view = self.engine.poll(session);
                Ok(build_drain_response(shape, session, view))
            }
        }
    }
}

#[test]
fn the_bridge_digs_and_walks() {
    let mut world = World::default();
    world.insert_room(Room {
        id: EntityId::new("snakewood/clearing").unwrap(),
        name: "Snakewood Clearing".to_string(),
        description: "A clearing.".to_string(),
        exits: SortedMap::new(),
    });
    let engine = Engine::new(Realm::new(world), Box::new(ManualClock::new(0)));
    let mut daemon = LocalDaemon { engine };
    let builder = ApiRequest::ConnectAs { actor: "player/mcp-builder".to_string() };
    let session = attached_session(&daemon.request(builder).unwrap()).unwrap();

    let dig = rpc(
        "tools/call",
        Some(3),
        json(
            r#"{"name": "snakewood_dig", "arguments":
                {"direction":"east","id":"snakewood/hollow","name":"A Hollow","description":"Mossy."}}"#,
        ),
    );
    let v = dispatch_rpc(&dig, session, &mut daemon).unwrap().result.unwrap();
    assert!(v["content"][0]["text"].as_str().unwrap().contains("east"));

    let walk = rpc(
        "tools/call",
        Some(4),
        json(r#"{"name": "snakewood_move", "arguments": {"direction":"east"}}"#),
    );
    let v = dispatch_rpc(&walk, session, &mut daemon).unwrap().result.unwrap();
    assert_eq!(
        v["content"][0]["text"].as_str().unwrap(),
        "A Hollow\r\nMossy.\r\nExits: west\r\n"
    );
}

#[test]
fn only_the_first_failure_is_retried() {
    let failed = || Err("daemon closed".to_string());
    let answered = || Ok(ApiResponse::Error { message: "unknown session 4".to_string() });
    assert_eq!(after_reply(false, failed()), NextStep::Reconnect);
    assert_eq!(after_reply(true, failed()), NextStep::Give(failed()));
    assert_eq!(after_reply(false, answered()), NextStep::Give(answered()));
    assert_eq!(after_reply(true, answered()), NextStep::Give(answered()));
}

/// A daemon that counts what it is sent.
struct CountingClient {
    sent: Vec<ApiRequest>,
}

impl DaemonClient for CountingClient {
    fn request(&mut self, req: ApiRequest) -> Result<ApiResponse, String> {
        self.sent.push(req);
        Ok(ApiResponse::Okay { messages: vec![] })
    }
}

#[test]
fn a_tool_call_sends_exactly_one_request() {
    let mut client = CountingClient { sent: vec![] };
    let call = json(r#"{"name": "snakewood_look", "arguments": {}}"#);
    assert!(dispatch_rpc(&rpc("tools/call", Some(1), call), 4, &mut client).is_some());
    assert_eq!(client.sent, vec![ApiRequest::Look { session: 4 }]);
    let mut untouched = CountingClient { sent: vec![] };
    for method in ["initialize", "tools/list", "tools/none"] {
        assert!(dispatch_rpc(&rpc(method, Some(1), json("{}")), 4, &mut untouched).is_some());
    }
    assert!(untouched.sent.is_empty());
}
