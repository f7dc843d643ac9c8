//! Structured requests, from arrival to reply.

use vstd::prelude::*;

use crate::api::protocol::{ApiRequest, ApiResponse, RequestView, ResponseView};
use crate::direction::Direction;
use crate::engine::model::EngineView;
use crate::engine::{self, laws, DigError, Engine};
use crate::fabric::intent::{Intent, IntentView};
use crate::id::{self, EntityId};
use crate::presentation::{NodeView, PresentationNode};
use crate::session::SessionId;
use crate::store::StoreError;
use crate::telnet::provision::{self, attach_named, end_session, spawn_player};
use crate::text;

verus! {

/// How a deferred API reply is shaped once the drain produces the view.
#[derive(Debug, PartialEq)]
pub enum ReplyShape {
    Connected { actor: String },
    Messages,
}

pub enum ShapeView {
    Connected { actor: text::Text },
    Messages,
}

impl View for ReplyShape {
    type V = ShapeView;

    open spec fn view(&self) -> ShapeView {
        match self {
            ReplyShape::Connected { actor } => ShapeView::Connected { actor: actor@ },
            ReplyShape::Messages => ShapeView::Messages,
        }
    }
}

impl Clone for ReplyShape {
    fn clone(&self) -> (r: ReplyShape)
        ensures
            r@ == self@,
    {
        match self {
            ReplyShape::Connected { actor } => ReplyShape::Connected { actor: actor.clone() },
            ReplyShape::Messages => ReplyShape::Messages,
        }
    }
}

/// The synchronous result of beginning an API request. Intent-bearing requests
/// enqueue and must await a drain before their view exists.
#[derive(Debug, PartialEq)]
pub enum ApiOutcome {
    Ready(ApiResponse),
    AwaitDrain { session: SessionId, before: u64, shape: ReplyShape },
}

pub enum OutcomeView {
    Ready(ResponseView),
    AwaitDrain { session: u64, before: u64, shape: ShapeView },
}

impl View for ApiOutcome {
    type V = OutcomeView;

    open spec fn view(&self) -> OutcomeView {
        match self {
            ApiOutcome::Ready(response) => OutcomeView::Ready(response@),
            ApiOutcome::AwaitDrain { session, before, shape } => OutcomeView::AwaitDrain {
                session: session@,
                before: *before,
                shape: shape@,
            },
        }
    }
}

// ---------------------------------------------------------------------------
// Why digging failed, in words
// ---------------------------------------------------------------------------

/// `t` as `core::fmt::Debug` shows it: in quotes, with what needs it escaped.
pub uninterp spec fn quoted_text(t: Seq<char>) -> Seq<char>;

/// `format!` with `{:?}` on a `str`, that is its `core::fmt::Debug`: a function
/// of the text alone, known here by its name only.
#[verifier::external_body]
fn quoted(t: &str) -> (r: String)
    ensures
        r@ == quoted_text(t@),
{
    format!("{:?}", t)
}

/// The text that an error carries; empty where it carries none.
pub open spec fn carried(e: DigError) -> text::Text {
    match e {
        DigError::InvalidId(t) => t@,
        DigError::Store(StoreError::Io(t)) => t@,
        DigError::Store(StoreError::Parse(t)) => t@,
        DigError::Store(StoreError::Git(t)) => t@,
        _ => seq![],
    }
}

/// Why digging failed, in words, with the text that the error carries written
/// as `shown`.
pub open spec fn dig_error_words(e: DigError, shown: text::Text) -> text::Text {
    match e {
        DigError::NoSession => "NoSession"@,
        DigError::NoLocation => "NoLocation"@,
        DigError::InvalidId(_) => "InvalidId("@ + shown + ")"@,
        DigError::RoomExists => "RoomExists"@,
        DigError::Store(StoreError::Io(_)) => "Store(Io("@ + shown + "))"@,
        DigError::Store(StoreError::Parse(_)) => "Store(Parse("@ + shown + "))"@,
        DigError::Store(StoreError::Git(_)) => "Store(Git("@ + shown + "))"@,
    }
}

/// Why digging failed, in words.
pub open spec fn dig_error_text(e: DigError) -> text::Text {
    dig_error_words(e, quoted_text(carried(e)))
}

/// Why digging failed, in words, with the text that the error carries written
/// as `shown`.
pub fn dig_error_in_words(e: &DigError, shown: &str) -> (r: String)
    ensures
        r@ == dig_error_words(*e, shown@),
{
    match e {
        DigError::NoSession => "NoSession".to_string(),
        DigError::NoLocation => "NoLocation".to_string(),
        DigError::InvalidId(_) => text::join_three("InvalidId(", shown, ")"),
        DigError::RoomExists => "RoomExists".to_string(),
        DigError::Store(StoreError::Io(_)) => text::join_three("Store(Io(", shown, "))"),
        DigError::Store(StoreError::Parse(_)) => text::join_three("Store(Parse(", shown, "))"),
        DigError::Store(StoreError::Git(_)) => text::join_three("Store(Git(", shown, "))"),
    }
}

fn describe_dig_error(e: &DigError) -> (r: String)
    ensures
        r@ == dig_error_text(*e),
{
    let carries = match e {
        DigError::InvalidId(t) => t.as_str(),
        DigError::Store(StoreError::Io(t)) => t.as_str(),
        DigError::Store(StoreError::Parse(t)) => t.as_str(),
        DigError::Store(StoreError::Git(t)) => t.as_str(),
        _ => {
            proof {
                reveal_strlit("");
                assert(""@ =~= seq![]);
            }
            ""
        },
    };
    dig_error_in_words(e, quoted(carries).as_str())
}

// ---------------------------------------------------------------------------
// Requests
// ---------------------------------------------------------------------------

/// A refusal with this message.
pub open spec fn refusal(message: text::Text) -> OutcomeView {
    OutcomeView::Ready(ResponseView::Error { message })
}

/// The refusal of a session that is not there.
pub open spec fn unknown_session(session: u64) -> OutcomeView {
    refusal("unknown session "@ + text::decimal(session as nat))
}

/// A reply that waits for the drain after `before`.
pub open spec fn waits(e: EngineView, session: u64, shape: ShapeView) -> OutcomeView {
    OutcomeView::AwaitDrain { session, before: e.drain_count, shape }
}

/// Whether an engine takes up a request to dig as `after` and `outcome` say: it
/// digs, and then enqueues a look or says why it did not dig.
pub open spec fn dig_handled(
    e: EngineView,
    after: EngineView,
    session: u64,
    direction: Direction,
    id: text::Text,
    name: text::Text,
    description: text::Text,
    outcome: OutcomeView,
) -> bool {
    exists|mid: EngineView, r: Result<EntityId, DigError>|
        {
            &&& #[trigger] e.digging(
                mid,
                session,
                direction,
                id,
                name,
                description,
                engine::dig_view(r),
            )
            &&& match r {
                Ok(_) => {
                    &&& after == mid.enqueued(
                        session,
                        IntentView::Look { actor: e.actor_of(session)->0 },
                    )
                    &&& outcome == waits(e, session, ShapeView::Messages)
                },
                Err(why) => {
                    &&& after == mid
                    &&& outcome == refusal("dig failed: "@ + dig_error_text(why))
                },
            }
        }
}

/// Whether a request opens a session: it connects, anonymously or under a name
/// that is an identifier.
pub open spec fn opens_session(req: RequestView) -> bool {
    match req {
        RequestView::Connect => true,
        RequestView::ConnectAs { actor } => id::valid_id(actor),
        _ => false,
    }
}

/// Whether an engine takes up a request as `after` and `outcome` say.
pub open spec fn handled(
    e: EngineView,
    after: EngineView,
    req: RequestView,
    start_room: text::Text,
    outcome: OutcomeView,
) -> bool {
    match req {
        RequestView::Connect => {
            let actor = provision::anon_id(e.next_anon as nat);
            &&& after == e.spawned(start_room).enqueued(e.next_session, IntentView::Look { actor })
            &&& outcome == waits(e, e.next_session, ShapeView::Connected { actor })
        },
        RequestView::ConnectAs { actor } => if id::valid_id(actor) {
            &&& after == e.attached(actor, start_room).enqueued(
                e.next_session,
                IntentView::Look { actor },
            )
            &&& outcome == waits(e, e.next_session, ShapeView::Connected { actor })
        } else {
            &&& after == e
            &&& outcome == refusal("invalid actor id: "@ + actor)
        },
        RequestView::Look { session } => match e.actor_of(session) {
            Some(actor) => {
                &&& after == e.enqueued(session, IntentView::Look { actor })
                &&& outcome == waits(e, session, ShapeView::Messages)
            },
            None => after == e && outcome == unknown_session(session),
        },
        RequestView::Move { session, direction } => match e.actor_of(session) {
            Some(actor) => {
                &&& after == e.enqueued(session, IntentView::Move { actor, direction })
                &&& outcome == waits(e, session, ShapeView::Messages)
            },
            None => after == e && outcome == unknown_session(session),
        },
        RequestView::Dig { session, direction, id, name, description } => dig_handled(
            e,
            after,
            session,
            direction,
            id,
            name,
            description,
            outcome,
        ),
        RequestView::Disconnect { session } => {
            &&& after == e.ended(session)
            &&& outcome == OutcomeView::Ready(ResponseView::Okay { messages: seq![] })
        },
    }
}

/// Look up the actor bound to a session, or produce an Error response.
fn actor_of(engine: &Engine, session: u64) -> (r: Result<EntityId, ApiResponse>)
    ensures
        match r {
            Ok(actor) => engine@.actor_of(session) == Some(actor@),
            Err(response) => engine@.actor_of(session) is None && OutcomeView::Ready(response@)
                == unknown_session(session),
        },
{
    match engine.session_actor(SessionId(session)) {
        Some(actor) => Ok(actor.clone()),
        None => Err(
            ApiResponse::Error {
                message: text::join_two("unknown session ", text::number_text(session).as_str()),
            },
        ),
    }
}

/// A response without messages.
fn quiet_ok() -> (r: ApiResponse)
    ensures
        r@ == (ResponseView::Okay { messages: seq![] }),
{
    let messages: Vec<PresentationNode> = Vec::new();
    assert(text::views(messages@) =~= seq![]);
    ApiResponse::Okay { messages }
}

/// Dig, and show the updated room after it (delivered post-drain).
fn begin_dig(
    engine: &mut Engine,
    session: u64,
    direction: Direction,
    id: &str,
    name: &str,
    description: &str,
) -> (r: ApiOutcome)
    ensures
        dig_handled(
            old(engine)@,
            final(engine)@,
            session,
            direction,
            id@,
            name@,
            description@,
            r@,
        ),
{
    let dug = engine.dig(SessionId(session), direction, id, name, description);
    let ghost mid = engine@;
    assert(old(engine)@.digging(
        mid,
        session,
        direction,
        id@,
        name@,
        description@,
        engine::dig_view(dug),
    ));
    match dug {
        Ok(_) => {
            proof {
                assert(old(engine)@.dig_refusal(session, id@) is None);
                assert(mid.sessions == old(engine)@.sessions);
            }
            match actor_of(engine, session) {
                Ok(actor) => {
                    let before = engine.drain_count();
                    engine.enqueue(SessionId(session), Intent::Look { actor });
                    ApiOutcome::AwaitDrain {
                        session: SessionId(session),
                        before,
                        shape: ReplyShape::Messages,
                    }
                },
                Err(_) => ApiOutcome::Ready(quiet_ok()),
            }
        },
        Err(why) => ApiOutcome::Ready(
            ApiResponse::Error {
                message: text::join_two("dig failed: ", describe_dig_error(&why).as_str()),
            },
        ),
    }
}

/// Begin handling a structured API request. Control ops (Dig error/Disconnect,
/// bad input) return `Ready`; intent-bearing ops enqueue an intent and return
/// `AwaitDrain` so the caller can wait one drain, then build the reply.
pub fn handle_api_request(engine: &mut Engine, req: ApiRequest, start_room: &EntityId) -> (r:
    ApiOutcome)
    requires
        opens_session(req@) ==> old(engine)@.next_session < u64::MAX,
        req is Connect ==> old(engine)@.next_anon < u64::MAX,
    ensures
        handled(old(engine)@, final(engine)@, req@, start_room@, r@),
{
    match req {
        ApiRequest::Connect => {
            let before = engine.drain_count();
            let (sid, actor) = spawn_player(engine, start_room);
            engine.enqueue(sid, Intent::Look { actor: actor.clone() });
            ApiOutcome::AwaitDrain {
                session: sid,
                before,
                shape: ReplyShape::Connected { actor: actor.as_str().to_string() },
            }
        },
        ApiRequest::ConnectAs { actor } => {
            let actor_id = match EntityId::new(actor.as_str()) {
                Ok(id) => id,
                Err(_) => {
                    return ApiOutcome::Ready(
                        ApiResponse::Error {
                            message: text::join_two("invalid actor id: ", actor.as_str()),
                        },
                    );
                },
            };
            let before = engine.drain_count();
            let sid = attach_named(engine, &actor_id, start_room);
            engine.enqueue(sid, Intent::Look { actor: actor_id.clone() });
            ApiOutcome::AwaitDrain {
                session: sid,
                before,
                shape: ReplyShape::Connected { actor: actor_id.as_str().to_string() },
            }
        },
        ApiRequest::Look { session } => {
            let actor = match actor_of(engine, session) {
                Ok(actor) => actor,
                Err(response) => {
                    return ApiOutcome::Ready(response);
                },
            };
            let before = engine.drain_count();
            engine.enqueue(SessionId(session), Intent::Look { actor });
            ApiOutcome::AwaitDrain {
                session: SessionId(session),
                before,
                shape: ReplyShape::Messages,
            }
        },
        ApiRequest::Move { session, direction } => {
            let actor = match actor_of(engine, session) {
                Ok(actor) => actor,
                Err(response) => {
                    return ApiOutcome::Ready(response);
                },
            };
            let before = engine.drain_count();
            engine.enqueue(SessionId(session), Intent::Move { actor, direction });
            ApiOutcome::AwaitDrain {
                session: SessionId(session),
                before,
                shape: ReplyShape::Messages,
            }
        },
        ApiRequest::Dig { session, direction, id, name, description } => begin_dig(
            engine,
            session,
            direction,
            id.as_str(),
            name.as_str(),
            description.as_str(),
        ),
        ApiRequest::Disconnect { session } => {
            end_session(engine, SessionId(session));
            ApiOutcome::Ready(quiet_ok())
        },
    }
}

/// The final response for a deferred request.
pub open spec fn drain_response(shape: ShapeView, session: u64, view: Seq<NodeView>) -> ResponseView {
    match shape {
        ShapeView::Connected { actor } => ResponseView::Connected { session, actor, view },
        ShapeView::Messages => ResponseView::Okay { messages: view },
    }
}

/// Build the final response for a deferred request once its view is polled.
pub fn build_drain_response(
    shape: ReplyShape,
    session: SessionId,
    view: Vec<PresentationNode>,
) -> (r: ApiResponse)
    ensures
        r@ == drain_response(shape@, session@, text::views(view@)),
{
    match shape {
        ReplyShape::Connected { actor } => ApiResponse::Connected {
            session: session.0,
            actor,
            view,
        },
        ReplyShape::Messages => ApiResponse::Okay { messages: view },
    }
}

// ---------------------------------------------------------------------------
// Laws
// ---------------------------------------------------------------------------

/// A request that waits is answered by the very next tick: the drain it waits for
/// is the one that works off its intent.
pub proof fn lemma_next_tick_answers(
    e: EngineView,
    after: EngineView,
    req: RequestView,
    start_room: text::Text,
    session: u64,
    before: u64,
    shape: ShapeView,
)
    requires
        handled(
            e,
            after,
            req,
            start_room,
            (OutcomeView::AwaitDrain { session, before, shape }),
        ),
        e.drain_count < u64::MAX,
        opens_session(req) ==> e.next_session < u64::MAX,
    ensures
        before == e.drain_count,
        after.ticked().drain_count > before,
        after.queue.len() == e.queue.len() + 1,
        after.queue.last().0 == session,
        after.actor_of(session) == Some(after.queue.last().1.actor()),
{
    if let RequestView::Dig { direction, id, name, description, .. } = req {
        let (mid, r) = choose|mid: EngineView, r: Result<EntityId, DigError>|
            {
                &&& #[trigger] e.digging(
                    mid,
                    session,
                    direction,
                    id,
                    name,
                    description,
                    engine::dig_view(r),
                )
                &&& r is Ok
                &&& after == mid.enqueued(
                    session,
                    IntentView::Look { actor: e.actor_of(session)->0 },
                )
            };
        assert(e.dig_refusal(session, id) is None);
        assert(mid.sessions == e.sessions);
    }
}

/// A session that is not there can neither look nor move nor dig, and the attempt
/// changes nothing.
pub proof fn lemma_unknown_session_is_refused(
    e: EngineView,
    after: EngineView,
    req: RequestView,
    start_room: text::Text,
    outcome: OutcomeView,
    session: u64,
)
    requires
        handled(e, after, req, start_room, outcome),
        e.actor_of(session) is None,
        match req {
            RequestView::Look { session: s } => s == session,
            RequestView::Move { session: s, .. } => s == session,
            RequestView::Dig { session: s, .. } => s == session,
            _ => false,
        },
    ensures
        after == e,
        outcome matches OutcomeView::Ready(ResponseView::Error { .. }),
{
}

/// After a disconnect, on purpose or again, the session is not there.
pub proof fn lemma_disconnect_ends_the_session(
    e: EngineView,
    after: EngineView,
    session: u64,
    start_room: text::Text,
    outcome: OutcomeView,
)
    requires
        handled(e, after, RequestView::Disconnect { session }, start_room, outcome),
    ensures
        after.actor_of(session) is None,
        outcome == OutcomeView::Ready(ResponseView::Okay { messages: seq![] }),
{
}

/// No request takes a mob out of the world, nor moves one, but the disconnect of
/// a session whose player leaves with it. A named actor's mob stays, a disconnect
/// of its own session included. (Where an anonymous player arrives, the mob with
/// the new player's id is that player.)
pub proof fn lemma_requests_leave_named_actors(
    e: EngineView,
    after: EngineView,
    req: RequestView,
    start_room: text::Text,
    outcome: OutcomeView,
    actor: text::Text,
)
    requires
        handled(e, after, req, start_room, outcome),
        e.realm.mobs.contains_key(actor),
        req matches RequestView::Disconnect { session } ==> e.persists(session) || e.actor_of(
            session,
        ) != Some(actor),
    ensures
        after.realm.mobs.contains_key(actor),
        req is Connect && actor == provision::anon_id(e.next_anon as nat)
            || after.realm.mobs[actor] == e.realm.mobs[actor],
{
    if let RequestView::Dig { session, direction, id, name, description } = req {
        let (mid, r) = choose|mid: EngineView, r: Result<EntityId, DigError>|
            #[trigger] e.digging(
                mid,
                session,
                direction,
                id,
                name,
                description,
                engine::dig_view(r),
            ) && after.realm == mid.realm;
        assert(mid.realm.mobs == e.realm.mobs);
    }
}

/// Two players that connect one after the other are never given the same id.
pub proof fn lemma_connections_are_distinct(
    e: EngineView,
    mid: EngineView,
    after: EngineView,
    start_room: text::Text,
    first: OutcomeView,
    second: OutcomeView,
)
    requires
        e.next_anon < u64::MAX - 1,
        e.next_session < u64::MAX - 1,
        handled(e, mid, RequestView::Connect, start_room, first),
        handled(mid, after, RequestView::Connect, start_room, second),
    ensures
        first->AwaitDrain_shape != second->AwaitDrain_shape,
        first->AwaitDrain_session != second->AwaitDrain_session,
{
    provision::lemma_anon_ids_never_collide(e.next_anon as nat, mid.next_anon as nat);
}

/// A request to look or to move puts that intent of the session's actor at the end of
/// the queue and waits for the next drain; nothing else changes. Without such a session
/// nothing changes, and the answer names the session.
pub proof fn lemma_looks_and_moves_are_queued(
    e: EngineView,
    after: EngineView,
    session: u64,
    direction: Direction,
    start_room: text::Text,
    outcome: OutcomeView,
)
    ensures
        ({
            let actor = e.sessions[session].actor;
            let later = OutcomeView::AwaitDrain {
                session,
                before: e.drain_count,
                shape: ShapeView::Messages,
            };
            let unknown = OutcomeView::Ready(
                ResponseView::Error {
                    message: "unknown session "@ + text::decimal(session as nat),
                },
            );
            &&& handled(e, after, RequestView::Look { session }, start_room, outcome) <==> if
            e.sessions.contains_key(session) {
                outcome == later && after == (EngineView {
                    queue: e.queue.push((session, IntentView::Look { actor })),
                    ..e
                })
            } else {
                outcome == unknown && after == e
            }
            &&& handled(e, after, RequestView::Move { session, direction }, start_room, outcome)
                <==> if e.sessions.contains_key(session) {
                outcome == later && after == (EngineView {
                    queue: e.queue.push((session, IntentView::Move { actor, direction })),
                    ..e
                })
            } else {
                outcome == unknown && after == e
            }
        }),
{
}

/// A request to connect, anonymously or under a name, brings the actor into the start
/// room, queues a look for the new session, and waits for the next drain to tell session
/// and actor. A name that is no identifier is refused, and nothing changes.
pub proof fn lemma_connecting_is_followed_by_a_look(
    e: EngineView,
    after: EngineView,
    name: text::Text,
    start_room: text::Text,
    outcome: OutcomeView,
)
    requires
        e.next_session < u64::MAX,
        e.next_anon < u64::MAX,
    ensures
        ({
            let id = "player/anon-"@ + text::decimal(e.next_anon as nat);
            let (before, session) = (e.drain_count, e.next_session);
            let spawned = e.spawned(start_room);
            let attached = e.attached(name, start_room);
            &&& handled(e, after, RequestView::Connect, start_room, outcome) <==> outcome == (
            OutcomeView::AwaitDrain {
                session,
                before,
                shape: ShapeView::Connected { actor: id },
            }) && after == (EngineView {
                queue: e.queue.push((session, IntentView::Look { actor: id })),
                ..spawned
            })
            &&& handled(e, after, RequestView::ConnectAs { actor: name }, start_room, outcome)
                <==> if id::valid_id(name) {
                outcome == (OutcomeView::AwaitDrain {
                    session,
                    before,
                    shape: ShapeView::Connected { actor: name },
                }) && after == (EngineView {
                    queue: e.queue.push((session, IntentView::Look { actor: name })),
                    ..attached
                })
            } else {
                outcome == OutcomeView::Ready(
                    ResponseView::Error { message: "invalid actor id: "@ + name },
                ) && after == e
            }
        }),
{
}

/// A request to disconnect ends the session and is answered at once, without messages,
/// whether there was such a session or not.
pub proof fn lemma_disconnecting_is_answered_at_once(
    e: EngineView,
    after: EngineView,
    session: u64,
    start_room: text::Text,
    outcome: OutcomeView,
)
    requires
        handled(e, after, RequestView::Disconnect { session }, start_room, outcome),
    ensures
        after == e.ended(session),
        outcome is Ready,
        outcome->Ready_0 is Okay,
        outcome->Ready_0->messages.len() == 0,
{
}

/// A request to dig that is refused changes nothing, and the answer says why. One that
/// is granted links the room where the session's actor stands with the new one; if the
/// store keeps it, a look of that actor is queued and awaited, and if not, the answer
/// says what the store said.
pub proof fn lemma_dig_requests(
    e: EngineView,
    after: EngineView,
    session: u64,
    direction: Direction,
    id: text::Text,
    name: text::Text,
    description: text::Text,
    start_room: text::Text,
    outcome: OutcomeView,
)
    requires
        handled(
            e,
            after,
            (RequestView::Dig { session, direction, id, name, description }),
            start_room,
            outcome,
        ),
    ensures
        ({
            let actor = e.sessions[session].actor;
            let from = e.realm.mobs[actor].location;
            if !e.sessions.contains_key(session) {
                after == e && outcome == OutcomeView::Ready(
                    ResponseView::Error { message: "dig failed: "@ + "NoSession"@ },
                )
            } else if !e.realm.mobs.contains_key(actor) {
                after == e && outcome == OutcomeView::Ready(
                    ResponseView::Error { message: "dig failed: "@ + "NoLocation"@ },
                )
            } else if !id::valid_id(id) {
                after == e && outcome == OutcomeView::Ready(
                    ResponseView::Error {
                        message: "dig failed: "@ + ("InvalidId("@ + quoted_text(id) + ")"@),
                    },
                )
            } else if e.realm.world.contains_key(id) {
                after == e && outcome == OutcomeView::Ready(
                    ResponseView::Error { message: "dig failed: "@ + "RoomExists"@ },
                )
            } else {
                &&& laws::linked(e.realm, after.realm, from, direction, id, name, description)
                &&& after == EngineView {
                    realm: after.realm,
                    store: after.store,
                    queue: after.queue,
                    ..e
                }
                &&& match outcome {
                    OutcomeView::AwaitDrain { session: s, before, shape } => {
                        &&& s == session
                        &&& before == e.drain_count
                        &&& shape is Messages
                        &&& after.queue == e.queue.push((session, IntentView::Look { actor }))
                    },
                    OutcomeView::Ready(r) => {
                        &&& r is Error
                        &&& after.queue == e.queue
                        &&& exists|t: text::Text|
                            #![trigger quoted_text(t)]
                            r->message == "dig failed: "@ + ("Store(Io("@ + quoted_text(t) + "))"@)
                                || r->message == "dig failed: "@ + ("Store(Parse("@ + quoted_text(
                                t,
                            ) + "))"@) || r->message == "dig failed: "@ + ("Store(Git("@
                                + quoted_text(t) + "))"@)
                    },
                }
            }
        }),
{
    let (mid, r) = choose|mid: EngineView, r: Result<EntityId, DigError>|
        {
            &&& #[trigger] e.digging(
                mid,
                session,
                direction,
                id,
                name,
                description,
                engine::dig_view(r),
            )
            &&& match r {
                Ok(_) => {
                    &&& after == mid.enqueued(
                        session,
                        IntentView::Look { actor: e.actor_of(session)->0 },
                    )
                    &&& outcome == waits(e, session, ShapeView::Messages)
                },
                Err(why) => {
                    &&& after == mid
                    &&& outcome == refusal("dig failed: "@ + dig_error_text(why))
                },
            }
        };
    laws::lemma_what_digging_does(
        e,
        mid,
        session,
        direction,
        id,
        name,
        description,
        engine::dig_view(r),
    );
    if r is Err && r->Err_0 is Store {
        let t = carried(r->Err_0);
        assert(dig_error_text(r->Err_0) == dig_error_words(r->Err_0, quoted_text(t)));
    }
}

/// What was awaited is answered with the view that came: to a connect with the session
/// and its actor, to anything else as messages.
pub proof fn lemma_what_is_answered_after_the_drain(
    actor: text::Text,
    session: u64,
    view: Seq<NodeView>,
)
    ensures
        drain_response(ShapeView::Connected { actor }, session, view) == (ResponseView::Connected {
            session,
            actor,
            view,
        }),
        drain_response(ShapeView::Messages, session, view) == (ResponseView::Okay {
            messages: view,
        }),
{
}

} // verus!
