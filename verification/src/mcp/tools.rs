//! The tools the bridge offers.

use vstd::prelude::*;

use crate::api::protocol::{ApiRequest, ApiResponse, RequestView, ResponseView};
use crate::direction::Direction;
use crate::fabric::intent::IntentView;
use crate::mcp::json::{self, Json};
use crate::presentation::NodeView;
use crate::telnet::parse::{self, direction_in};
use crate::telnet::render::{self, render, RenderStyle};
use crate::text;

verus! {

// ---------------------------------------------------------------------------
// Definitions
// ---------------------------------------------------------------------------

/// The schema of a text.
pub open spec fn text_schema() -> Json {
    Json::Object(Map::empty().insert("type"@, Json::Text("string"@)))
}

/// The schema of a tool's input: an object with these properties.
pub open spec fn object_schema(properties: Json) -> Map<text::Text, Json> {
    Map::empty().insert("type"@, Json::Text("object"@)).insert("properties"@, properties)
}

/// A tool.
pub open spec fn tool(name: text::Text, description: text::Text, schema: Json) -> Json {
    Json::Object(
        Map::empty().insert("name"@, Json::Text(name)).insert(
            "description"@,
            Json::Text(description),
        ).insert("inputSchema"@, schema),
    )
}

/// The tool to look.
pub open spec fn look_tool() -> Json {
    tool(
        "snakewood_look"@,
        "Look at the current room (name, description, exits, occupants)."@,
        Json::Object(object_schema(Json::Object(Map::empty()))),
    )
}

/// The tool to move.
pub open spec fn move_tool() -> Json {
    tool(
        "snakewood_move"@,
        "Move the builder in a direction (north/south/east/west/up/down)."@,
        Json::Object(
            object_schema(
                Json::Object(Map::empty().insert("direction"@, text_schema())),
            ).insert("required"@, Json::Array(seq![Json::Text("direction"@)])),
        ),
    )
}

/// The tool to dig.
pub open spec fn dig_tool() -> Json {
    tool(
        "snakewood_dig"@,
        "Dig a new room in a direction, linked both ways, and persist it."@,
        Json::Object(
            object_schema(
                Json::Object(
                    Map::empty().insert("direction"@, text_schema()).insert(
                        "id"@,
                        text_schema(),
                    ).insert("name"@, text_schema()).insert("description"@, text_schema()),
                ),
            ).insert(
                "required"@,
                Json::Array(
                    seq![
                        Json::Text("direction"@),
                        Json::Text("id"@),
                        Json::Text("name"@),
                        Json::Text("description"@),
                    ],
                ),
            ),
        ),
    )
}

/// The list of tools.
pub open spec fn tool_list() -> Json {
    Json::Object(
        Map::empty().insert("tools"@, Json::Array(seq![look_tool(), move_tool(), dig_tool()])),
    )
}

fn describe_text() -> (r: serde_json::Value)
    ensures
        json::json_model(r) == text_schema(),
{
    json::with_field(json::empty_object(), "type", json::string("string"))
}

fn describe_object(properties: serde_json::Value) -> (r: serde_json::Value)
    ensures
        json::json_model(r) == Json::Object(object_schema(json::json_model(properties))),
{
    let typed = json::with_field(json::empty_object(), "type", json::string("object"));
    json::with_field(typed, "properties", properties)
}

fn describe_tool(name: &str, description: &str, schema: serde_json::Value) -> (r:
    serde_json::Value)
    ensures
        json::json_model(r) == tool(name@, description@, json::json_model(schema)),
{
    let named = json::with_field(json::empty_object(), "name", json::string(name));
    let described = json::with_field(named, "description", json::string(description));
    json::with_field(described, "inputSchema", schema)
}

fn describe_look() -> (r: serde_json::Value)
    ensures
        json::json_model(r) == look_tool(),
{
    describe_tool(
        "snakewood_look",
        "Look at the current room (name, description, exits, occupants).",
        describe_object(json::empty_object()),
    )
}

fn describe_move() -> (r: serde_json::Value)
    ensures
        json::json_model(r) == move_tool(),
{
    let properties = json::with_field(json::empty_object(), "direction", describe_text());
    let mut required: Vec<serde_json::Value> = Vec::new();
    required.push(json::string("direction"));
    assert(json::models(required@) =~= seq![Json::Text("direction"@)]);
    let schema = json::with_field(
        describe_object(properties),
        "required",
        json::array(required),
    );
    describe_tool(
        "snakewood_move",
        "Move the builder in a direction (north/south/east/west/up/down).",
        schema,
    )
}

fn describe_dig() -> (r: serde_json::Value)
    ensures
        json::json_model(r) == dig_tool(),
{
    let directed = json::with_field(json::empty_object(), "direction", describe_text());
    let identified = json::with_field(directed, "id", describe_text());
    let named = json::with_field(identified, "name", describe_text());
    let properties = json::with_field(named, "description", describe_text());
    let mut required: Vec<serde_json::Value> = Vec::new();
    required.push(json::string("direction"));
    required.push(json::string("id"));
    required.push(json::string("name"));
    required.push(json::string("description"));
    assert(json::models(required@) =~= seq![
        Json::Text("direction"@),
        Json::Text("id"@),
        Json::Text("name"@),
        Json::Text("description"@),
    ]);
    let schema = json::with_field(
        describe_object(properties),
        "required",
        json::array(required),
    );
    describe_tool(
        "snakewood_dig",
        "Dig a new room in a direction, linked both ways, and persist it.",
        schema,
    )
}

/// The MCP `tools/list` payload.
pub fn tool_definitions() -> (r: serde_json::Value)
    ensures
        json::json_model(r) == tool_list(),
{
    let mut tools: Vec<serde_json::Value> = Vec::new();
    tools.push(describe_look());
    tools.push(describe_move());
    tools.push(describe_dig());
    assert(json::models(tools@) =~= seq![look_tool(), move_tool(), dig_tool()]);
    json::with_field(json::empty_object(), "tools", json::array(tools))
}

// ---------------------------------------------------------------------------
// Calls
// ---------------------------------------------------------------------------

/// The text arguments of a tool call, those that are there.
#[derive(Debug, Clone, Copy, PartialEq)]
pub struct ToolArgs<'a> {
    pub direction: Option<&'a str>,
    pub id: Option<&'a str>,
    pub name: Option<&'a str>,
    pub description: Option<&'a str>,
}

pub struct ArgsView {
    pub direction: Option<text::Text>,
    pub id: Option<text::Text>,
    pub name: Option<text::Text>,
    pub description: Option<text::Text>,
}

impl<'a> View for ToolArgs<'a> {
    type V = ArgsView;

    open spec fn view(&self) -> ArgsView {
        ArgsView {
            direction: text::opt_view(self.direction),
            id: text::opt_view(self.id),
            name: text::opt_view(self.name),
            description: text::opt_view(self.description),
        }
    }
}

/// The arguments that a JSON value holds.
pub open spec fn args_in(v: Json) -> ArgsView {
    ArgsView {
        direction: json::text_field(v, "direction"@),
        id: json::text_field(v, "id"@),
        name: json::text_field(v, "name"@),
        description: json::text_field(v, "description"@),
    }
}

/// The direction among the arguments, or what is wrong with it.
pub open spec fn direction_arg(args: ArgsView) -> Result<Direction, text::Text> {
    match args.direction {
        None => Err("missing 'direction'"@),
        Some(s) => match parse::direction_named(parse::word(s)) {
            Some(d) => Ok(d),
            None => Err("bad direction: "@ + s),
        },
    }
}

/// The request that a tool call stands for, or what is wrong with it.
pub open spec fn called(name: text::Text, args: ArgsView, session: u64) -> Result<
    RequestView,
    text::Text,
> {
    if name == "snakewood_look"@ {
        Ok(RequestView::Look { session })
    } else if name == "snakewood_move"@ {
        match direction_arg(args) {
            Ok(direction) => Ok(RequestView::Move { session, direction }),
            Err(e) => Err(e),
        }
    } else if name == "snakewood_dig"@ {
        match direction_arg(args) {
            Err(e) => Err(e),
            Ok(direction) => match (args.id, args.name, args.description) {
                (None, _, _) => Err("missing 'id'"@),
                (_, None, _) => Err("missing 'name'"@),
                (_, _, None) => Err("missing 'description'"@),
                (Some(id), Some(name), Some(description)) => Ok(
                    RequestView::Dig { session, direction, id, name, description },
                ),
            },
        }
    } else {
        Err("unknown tool: "@ + name)
    }
}

/// A result as the contracts see it.
pub open spec fn result_view(r: Result<ApiRequest, String>) -> Result<RequestView, text::Text> {
    match r {
        Ok(req) => Ok(req@),
        Err(e) => Err(e@),
    }
}

fn direction_of(args: &ToolArgs) -> (r: Result<Direction, String>)
    ensures
        match r {
            Ok(d) => direction_arg(args@) == Ok::<Direction, text::Text>(d),
            Err(e) => direction_arg(args@) == Err::<Direction, text::Text>(e@),
        },
{
    match args.direction {
        None => Err("missing 'direction'".to_string()),
        Some(s) => match direction_in(s) {
            Some(d) => Ok(d),
            None => Err(text::join_two("bad direction: ", s)),
        },
    }
}

/// Map a tool call with these arguments to a request for `session`.
pub fn tool_request(name: &str, args: &ToolArgs, session: u64) -> (r: Result<ApiRequest, String>)
    ensures
        result_view(r) == called(name@, args@, session),
{
    if text::same(name, "snakewood_look") {
        return Ok(ApiRequest::Look { session });
    }
    if text::same(name, "snakewood_move") {
        return match direction_of(args) {
            Ok(direction) => Ok(ApiRequest::Move { session, direction }),
            Err(e) => Err(e),
        };
    }
    if text::same(name, "snakewood_dig") {
        let direction = match direction_of(args) {
            Ok(direction) => direction,
            Err(e) => {
                return Err(e);
            },
        };
        let id = match args.id {
            Some(id) => id.to_string(),
            None => {
                return Err("missing 'id'".to_string());
            },
        };
        let room_name = match args.name {
            Some(n) => n.to_string(),
            None => {
                return Err("missing 'name'".to_string());
            },
        };
        let description = match args.description {
            Some(d) => d.to_string(),
            None => {
                return Err("missing 'description'".to_string());
            },
        };
        return Ok(ApiRequest::Dig { session, direction, id, name: room_name, description });
    }
    Err(text::join_two("unknown tool: ", name))
}

/// Map an MCP tool call to an `ApiRequest` for `session`.
pub fn tool_call_to_request(name: &str, args: &serde_json::Value, session: u64) -> (r: Result<
    ApiRequest,
    String,
>)
    ensures
        result_view(r) == called(name@, args_in(json::json_model(*args)), session),
{
    let given = ToolArgs {
        direction: json::get_text(args, "direction"),
        id: json::get_text(args, "id"),
        name: json::get_text(args, "name"),
        description: json::get_text(args, "description"),
    };
    tool_request(name, &given, session)
}

/// A response in words, and whether it is an error.
pub open spec fn response_text(resp: ResponseView) -> (text::Text, bool) {
    match resp {
        ResponseView::Connected { view, .. } => (render::wire(view, RenderStyle::Plain), false),
        ResponseView::Okay { messages } => {
            let t = render::wire(messages, RenderStyle::Plain);
            (
                if t.len() == 0 {
                    "OK"@
                } else {
                    t
                },
                false,
            )
        },
        ResponseView::Error { message } => (message, true),
    }
}

/// Render an `ApiResponse` to (text, is_error) for an MCP tool result.
pub fn response_to_text(resp: &ApiResponse) -> (r: (String, bool))
    ensures
        (r.0@, r.1) == response_text(resp@),
{
    match resp {
        ApiResponse::Connected { view, .. } => (render(view.as_slice(), RenderStyle::Plain), false),
        ApiResponse::Okay { messages } => {
            let t = render(messages.as_slice(), RenderStyle::Plain);
            if text::same(t.as_str(), "") {
                proof {
                    reveal_strlit("");
                }
                ("OK".to_string(), false)
            } else {
                proof {
                    reveal_strlit("");
                    if t@.len() == 0 {
                        assert(t@ =~= ""@);
                    }
                }
                (t, false)
            }
        },
        ApiResponse::Error { message } => (message.clone(), true),
    }
}

// ---------------------------------------------------------------------------
// Laws
// ---------------------------------------------------------------------------

/// A tool call acts for the session it came from: the request, if there is one,
/// is a look, a move or a dig of that session.
pub proof fn lemma_tool_calls_act_for_their_session(
    name: text::Text,
    args: ArgsView,
    session: u64,
)
    ensures
        called(name, args, session) matches Ok(req) ==> match req {
            RequestView::Look { session: s } => s == session,
            RequestView::Move { session: s, .. } => s == session,
            RequestView::Dig { session: s, .. } => s == session,
            _ => false,
        },
{
}

/// A direction means the same to a tool call as to a player's line.
pub proof fn lemma_directions_are_those_of_players(
    direction: text::Text,
    args: ArgsView,
    actor: text::Text,
    d: Direction,
)
    requires
        args.direction == Some(direction),
    ensures
        direction_arg(args) == Ok::<Direction, text::Text>(d) <==> parse::parsed(direction, actor)
            == Some(crate::fabric::intent::IntentView::Move { actor, direction: d }),
{
}

/// Only the three tools that are listed can be called.
pub proof fn lemma_unlisted_tools_are_refused(name: text::Text, args: ArgsView, session: u64)
    requires
        name != "snakewood_look"@,
        name != "snakewood_move"@,
        name != "snakewood_dig"@,
    ensures
        called(name, args, session) == Err::<RequestView, text::Text>("unknown tool: "@ + name),
{
}

/// The arguments of a call are the texts that its object holds at their names. What is
/// there but no text does not count, and what is no object holds none.
pub proof fn lemma_arguments_are_texts(m: Map<text::Text, Json>, v: Json, t: text::Text)
    ensures
        ({
            let args = args_in(Json::Object(m));
            &&& args.direction == Some(t) <==> m.contains_key("direction"@) && m["direction"@]
                == Json::Text(t)
            &&& args.id == Some(t) <==> m.contains_key("id"@) && m["id"@] == Json::Text(t)
            &&& args.name == Some(t) <==> m.contains_key("name"@) && m["name"@] == Json::Text(t)
            &&& args.description == Some(t) <==> m.contains_key("description"@)
                && m["description"@] == Json::Text(t)
            &&& !(v is Object) ==> args_in(v).direction is None && args_in(v).id is None && args_in(
                v,
            ).name is None && args_in(v).description is None
        }),
{
}

/// What the tools ask of the daemon. To look takes no argument. To move takes a
/// direction, written as a player would. To dig takes a direction, an id, a name and a
/// description, and the first of these that is missing is named.
pub proof fn lemma_what_tools_ask(
    args: ArgsView,
    front: text::Text,
    command: text::Text,
    back: text::Text,
    direction: Direction,
    session: u64,
)
    requires
        text::all_blank(front),
        text::all_blank(back),
        text::is_bare(command),
        args.direction == Some(front + command + back),
    ensures
        ({
            let given = front + command + back;
            let going = called("snakewood_move"@, args, session);
            let digging = called("snakewood_dig"@, args, session);
            &&& called("snakewood_look"@, args, session) == Ok::<RequestView, text::Text>(
                RequestView::Look { session },
            )
            &&& parse::calls_for(command, direction) ==> going == Ok::<RequestView, text::Text>(
                RequestView::Move { session, direction },
            )
            &&& (forall|d: Direction| !parse::calls_for(command, d)) ==> going == Err::<
                RequestView,
                text::Text,
            >("bad direction: "@ + given) && digging == Err::<RequestView, text::Text>(
                "bad direction: "@ + given,
            )
            &&& parse::calls_for(command, direction) ==> digging == if args.id is None {
                Err::<RequestView, text::Text>("missing 'id'"@)
            } else if args.name is None {
                Err("missing 'name'"@)
            } else if args.description is None {
                Err("missing 'description'"@)
            } else {
                Ok(
                    RequestView::Dig {
                        session,
                        direction,
                        id: args.id->0,
                        name: args.name->0,
                        description: args.description->0,
                    },
                )
            }
        }),
{
    lemma_tool_names_differ();
    parse::lemma_the_vocabulary(front, command, back, seq![]);
    let given = front + command + back;
    assert(parse::calls_for(command, direction) <==> parse::parsed(given, seq![]) == Some(
        IntentView::Move { actor: seq![], direction },
    ));
    if parse::direction_named(parse::word(given)) is Some {
        let d = parse::direction_named(parse::word(given))->0;
        assert(parse::calls_for(command, d) <==> parse::parsed(given, seq![]) == Some(
            IntentView::Move { actor: seq![], direction: d },
        ));
    }
}

/// Without a direction there is neither moving nor digging.
pub proof fn lemma_moving_takes_a_direction(args: ArgsView, session: u64)
    requires
        args.direction is None,
    ensures
        called("snakewood_move"@, args, session) == Err::<RequestView, text::Text>(
            "missing 'direction'"@,
        ),
        called("snakewood_dig"@, args, session) == Err::<RequestView, text::Text>(
            "missing 'direction'"@,
        ),
{
    lemma_tool_names_differ();
}

proof fn lemma_tool_names_differ()
    ensures
        "snakewood_look"@ != "snakewood_move"@,
        "snakewood_look"@ != "snakewood_dig"@,
        "snakewood_move"@ != "snakewood_dig"@,
{
    reveal_strlit("snakewood_look");
    reveal_strlit("snakewood_move");
    reveal_strlit("snakewood_dig");
    assert("snakewood_look"@[10] == 'l');
    assert("snakewood_move"@[10] == 'm');
    assert("snakewood_dig"@[10] == 'd');
}

/// A response in words: an error is its message, and nothing else is an error. What is
/// shown is written plainly; to what shows nothing the answer is `OK`, but to a connect.
pub proof fn lemma_responses_in_words(
    session: u64,
    actor: text::Text,
    view: Seq<NodeView>,
    message: text::Text,
)
    ensures
        ({
            let shown = render::wire(view, RenderStyle::Plain);
            &&& response_text(ResponseView::Error { message }) == (message, true)
            &&& response_text(ResponseView::Connected { session, actor, view }) == (shown, false)
            &&& shown.len() > 0 ==> response_text(ResponseView::Okay { messages: view }) == (
                shown,
                false,
            )
            &&& shown.len() == 0 ==> response_text(ResponseView::Okay { messages: view }) == (
                "OK"@,
                false,
            )
        }),
{
}

/// What an object holds at a key.
pub open spec fn at(v: Json, key: text::Text) -> Json
    recommends
        v is Object,
{
    v->Object_0[key]
}

/// Whether the value describes a tool of this name that takes these arguments: each is
/// required, each is a text, and there is no other.
pub open spec fn describes(v: Json, name: text::Text, arguments: Seq<text::Text>) -> bool {
    let schema = at(v, "inputSchema"@);
    let properties = at(schema, "properties"@);
    let required = at(schema, "required"@);
    &&& v is Object
    &&& at(v, "name"@) == Json::Text(name)
    &&& at(v, "description"@) is Text
    &&& schema is Object
    &&& at(schema, "type"@) == Json::Text("object"@)
    &&& properties is Object
    &&& forall|a: text::Text| #[trigger]
        properties->Object_0.contains_key(a) <==> arguments.contains(a)
    &&& forall|i: int|
        0 <= i < arguments.len() ==> at(properties, #[trigger] arguments[i]) is Object && at(
            at(properties, arguments[i]),
            "type"@,
        ) == Json::Text("string"@)
    &&& arguments.len() == 0 ==> !schema->Object_0.contains_key("required"@)
    &&& arguments.len() > 0 ==> required is Array && required->Array_0.len() == arguments.len()
        && forall|i: int|
        0 <= i < arguments.len() ==> required->Array_0[i] == Json::Text(#[trigger] arguments[i])
}

/// The list of tools describes the three that can be called, with the arguments that
/// they take.
pub proof fn lemma_the_list_of_tools()
    ensures
        ({
            let tools = at(tool_list(), "tools"@);
            &&& tool_list() is Object
            &&& tools is Array
            &&& tools->Array_0.len() == 3
            &&& describes(tools->Array_0[0], "snakewood_look"@, seq![])
            &&& describes(tools->Array_0[1], "snakewood_move"@, seq!["direction"@])
            &&& describes(
                tools->Array_0[2],
                "snakewood_dig"@,
                seq!["direction"@, "id"@, "name"@, "description"@],
            )
        }),
{
    reveal_strlit("type");
    reveal_strlit("name");
    reveal_strlit("description");
    reveal_strlit("inputSchema");
    reveal_strlit("properties");
    reveal_strlit("required");
    reveal_strlit("direction");
    reveal_strlit("id");
    assert("name"@.len() == 4 && "type"@.len() == 4 && "name"@[0] != "type"@[0]);
    assert("description"@.len() == 11 && "inputSchema"@.len() == 11 && "description"@[0]
        != "inputSchema"@[0]);
    assert("properties"@.len() == 10 && "required"@.len() == 8);
    assert("direction"@.len() == 9 && "id"@.len() == 2);
    let one = seq!["direction"@];
    let four = seq!["direction"@, "id"@, "name"@, "description"@];
    assert(one[0] == "direction"@);
    assert(four[0] == "direction"@ && four[1] == "id"@ && four[2] == "name"@ && four[3]
        == "description"@);
    let move_properties = Map::<text::Text, Json>::empty().insert("direction"@, text_schema());
    assert forall|a: text::Text| #[trigger] move_properties.contains_key(a) <==> one.contains(a) by {
        if one.contains(a) {
            let i = choose|i: int| 0 <= i < one.len() && one[i] == a;
            assert(i == 0);
        }
    }
    let dig_properties = move_properties.insert("id"@, text_schema()).insert(
        "name"@,
        text_schema(),
    ).insert("description"@, text_schema());
    assert forall|a: text::Text| #[trigger] dig_properties.contains_key(a) <==> four.contains(a) by {
        if dig_properties.contains_key(a) {
            assert(a == four[0] || a == four[1] || a == four[2] || a == four[3]);
        }
    }
    assert(describes(look_tool(), "snakewood_look"@, seq![]));
    assert(describes(move_tool(), "snakewood_move"@, one));
    assert(describes(dig_tool(), "snakewood_dig"@, four));
}

} // verus!
