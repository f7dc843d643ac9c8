use snakewood::api::{
    bad_request, build_drain_response, dig_error_in_words, handle_api_request, ApiConnection,
    ApiOutcome, ApiRequest, ApiResponse, DrainWait, ReplyShape, RequestKind,
};
use snakewood::{
    CommitId, DigError, Direction, Engine, EntityId, ManualClock, Mob, Operator, PresentationNode, Realm,
    Room, Rule, SessionId, SortedMap, StoreError, World, WorldStore,
};

fn engine() -> Engine {
    let mut exits = SortedMap::new();
    exits.insert(Direction::North, EntityId::new("snakewood/old-well").unwrap());
    let mut world = World::default();
    world.insert_room(Room {
        id: EntityId::new("snakewood/clearing").unwrap(),
        name: "Snakewood Clearing".to_string(),
        description: "A clearing.".to_string(),
        exits,
    });
    world.insert_room(Room {
        id: EntityId::new("snakewood/old-well").unwrap(),
        name: "The Old Well".to_string(),
        description: "A well.".to_string(),
        exits: SortedMap::new(),
    });
    Engine::new(Realm::new(world), Box::new(ManualClock::new(0)))
}

fn start() -> EntityId {
    EntityId::new("snakewood/clearing").unwrap()
}

/// Drive one drain for what waits, and build the final response.
fn settle(e: &mut Engine, outcome: ApiOutcome) -> ApiResponse {
    match outcome {
        ApiOutcome::Ready(r) => r,
        ApiOutcome::AwaitDrain { session, before, shape } => {
            e.tick();
            assert!(e.drain_count() > before);
            let view = e.poll(session);
            build_drain_response(shape, session, view)
        }
    }
}

/// Begin a request, drive one drain, and build the final response.
fn run(e: &mut Engine, req: ApiRequest) -> ApiResponse {
    let outcome = handle_api_request(e, req, &start());
    settle(e, outcome)
}

fn dig(session: u64, id: &str) -> ApiRequest {
    ApiRequest::Dig {
        session,
        direction: Direction::East,
        id: id.to_string(),
        name: "A Hollow".to_string(),
        description: "Mossy.".to_string(),
    }
}

fn error(message: &str) -> ApiResponse {
    ApiResponse::Error { message: message.to_string() }
}

#[test]
fn connect_returns_session_and_start_room_view() {
    let mut e = engine();
    match run(&mut e, ApiRequest::Connect) {
        ApiResponse::Connected { session, actor, view } => {
            assert_eq!(actor, "player/anon-0");
            assert_eq!(session, 0);
            assert!(view.contains(&PresentationNode::RoomName("Snakewood Clearing".to_string())));
        }
        other => panic!("expected Connected, got {other:?}"),
    }
}

#[test]
fn connect_as_attaches_named_builder() {
    let mut e = engine();
    match run(&mut e, ApiRequest::ConnectAs { actor: "player/mcp-builder".to_string() }) {
        ApiResponse::Connected { actor, view, .. } => {
            assert_eq!(actor, "player/mcp-builder");
            assert!(view.contains(&PresentationNode::RoomName("Snakewood Clearing".to_string())));
        }
        other => panic!("expected Connected, got {other:?}"),
    }
}

#[test]
fn move_returns_new_room_view() {
    let mut e = engine();
    let ApiResponse::Connected { session, .. } = run(&mut e, ApiRequest::Connect) else {
        panic!("connect failed");
    };
    match run(&mut e, ApiRequest::Move { session, direction: Direction::North }) {
        ApiResponse::Okay { messages } => {
            assert!(messages.contains(&PresentationNode::RoomName("The Old Well".to_string())));
        }
        other => panic!("expected Ok, got {other:?}"),
    }
}

#[test]
fn dig_then_look_shows_new_exit() {
    let mut e = engine();
    let ApiResponse::Connected { session, .. } = run(&mut e, ApiRequest::Connect) else {
        panic!("connect failed");
    };
    match run(
        &mut e,
        ApiRequest::Dig {
            session,
            direction: Direction::East,
            id: "snakewood/hollow".to_string(),
            name: "A Hollow".to_string(),
            description: "Mossy.".to_string(),
        },
    ) {
        ApiResponse::Okay { messages } => {
            // The clearing view now lists an east exit.
            assert!(messages.iter().any(
                |n| matches!(n, PresentationNode::Exits(dirs) if dirs.contains(&Direction::East))
            ));
        }
        other => panic!("expected Ok, got {other:?}"),
    }
}

#[test]
fn unknown_session_is_error() {
    let mut e = engine();
    match handle_api_request(&mut e, ApiRequest::Look { session: 999 }, &start()) {
        ApiOutcome::Ready(ApiResponse::Error { .. }) => {}
        other => panic!("expected Ready(Error), got {other:?}"),
    }
}

#[test]
fn connect_ids_are_distinct_across_calls() {
    // Two Connect requests on the same engine must never collide on the same
    // anon id.
    let mut e = engine();
    let ApiResponse::Connected { actor: actor1, .. } = run(&mut e, ApiRequest::Connect) else {
        panic!("connect failed");
    };
    let ApiResponse::Connected { actor: actor2, .. } = run(&mut e, ApiRequest::Connect) else {
        panic!("connect failed");
    };
    assert_eq!(actor1, "player/anon-0");
    assert_eq!(actor2, "player/anon-1");
    assert_ne!(actor1, actor2);
}

#[test]
fn refusals_say_why() {
    let mut e = engine();
    assert_eq!(run(&mut e, ApiRequest::Look { session: 999 }), error("unknown session 999"));
    assert_eq!(
        run(&mut e, ApiRequest::Move { session: 10, direction: Direction::Up }),
        error("unknown session 10")
    );
    assert_eq!(
        run(&mut e, ApiRequest::ConnectAs { actor: "Nobody".to_string() }),
        error("invalid actor id: Nobody")
    );
    assert_eq!(run(&mut e, dig(3, "snakewood/hollow")), error("dig failed: NoSession"));
    let ApiResponse::Connected { session, .. } = run(&mut e, ApiRequest::Connect) else {
        panic!("connect failed");
    };
    assert_eq!(run(&mut e, dig(session, "snakewood/old-well")), error("dig failed: RoomExists"));
    assert_eq!(
        run(&mut e, dig(session, "say \"hi\"\n")),
        error("dig failed: InvalidId(\"say \\\"hi\\\"\\n\")")
    );
    e.realm_mut().mobs.remove(&EntityId::new("player/anon-0").unwrap());
    assert_eq!(run(&mut e, dig(session, "snakewood/hollow")), error("dig failed: NoLocation"));
}

/// A store that fails whatever it is asked.
struct Broken;
fn broken<T>() -> Result<T, StoreError> {
    Err(StoreError::Git("no 'HEAD'".to_string()))
}
impl WorldStore for Broken {
    fn save_room(&mut self, _room: &Room) -> Result<(), StoreError> {
        broken()
    }
    fn load_all(&self) -> Result<World, StoreError> {
        broken()
    }
    fn commit(&mut self, _message: &str, _at: i64) -> Result<CommitId, StoreError> {
        broken()
    }
    fn commit_log(&self) -> Vec<String> {
        Vec::new()
    }
    fn save_mob(&mut self, _mob: &Mob) -> Result<(), StoreError> {
        broken()
    }
    fn remove_mob(&mut self, _id: &EntityId) -> Result<(), StoreError> {
        broken()
    }
    fn load_mobs(&self) -> Result<Vec<Mob>, StoreError> {
        broken()
    }
    fn save_rules(&mut self, _rules: &[Rule]) -> Result<(), StoreError> {
        broken()
    }
    fn load_rules(&self) -> Result<Vec<Rule>, StoreError> {
        broken()
    }
    fn save_operators(&mut self, _operators: &[Operator]) -> Result<(), StoreError> {
        broken()
    }
    fn load_operators(&self) -> Result<Vec<Operator>, StoreError> {
        broken()
    }
}

#[test]
fn failing_stores_are_described() {
    let mut e = engine();
    e.attach_store(Box::new(Broken));
    let ApiResponse::Connected { session, .. } = run(&mut e, ApiRequest::Connect) else {
        panic!("connect failed");
    };
    assert_eq!(
        run(&mut e, dig(session, "snakewood/hollow")),
        error("dig failed: Store(Git(\"no 'HEAD'\"))")
    );
}

#[test]
fn disconnect_despawns_and_can_be_repeated() {
    let mut e = engine();
    run(&mut e, ApiRequest::Connect);
    let done = ApiResponse::Okay { messages: vec![] };
    assert_eq!(run(&mut e, ApiRequest::Disconnect { session: 0 }), done);
    assert!(e.realm().mob(&EntityId::new("player/anon-0").unwrap()).is_none());
    assert_eq!(e.session_actor(SessionId(0)), None);
    assert_eq!(run(&mut e, ApiRequest::Disconnect { session: 0 }), done);
}

#[test]
fn a_waiting_reply_names_the_drain_it_waits_for() {
    let mut e = engine();
    e.tick();
    assert_eq!(
        handle_api_request(&mut e, ApiRequest::Connect, &start()),
        ApiOutcome::AwaitDrain {
            session: SessionId(0),
            before: 1,
            shape: ReplyShape::Connected { actor: "player/anon-0".to_string() },
        }
    );
    assert_eq!(
        handle_api_request(&mut e, ApiRequest::Look { session: 0 }, &start()),
        ApiOutcome::AwaitDrain { session: SessionId(0), before: 1, shape: ReplyShape::Messages }
    );
}

#[test]
fn replies_take_their_shape() {
    let view = vec![PresentationNode::Prompt];
    assert_eq!(
        build_drain_response(ReplyShape::Messages, SessionId(4), view.clone()),
        ApiResponse::Okay { messages: view.clone() }
    );
    assert_eq!(
        build_drain_response(
            ReplyShape::Connected { actor: "a/b".to_string() },
            SessionId(4),
            view.clone()
        ),
        ApiResponse::Connected { session: 4, actor: "a/b".to_string(), view }
    );
    assert_eq!(bad_request("expected value"), error("bad request: expected value"));
}

#[test]
fn requests_are_classified_for_cleanup() {
    assert_eq!(RequestKind::of(&ApiRequest::Connect), RequestKind::Ephemeral);
    assert_eq!(
        RequestKind::of(&ApiRequest::ConnectAs { actor: "a/b".to_string() }),
        RequestKind::Persistent
    );
    assert_eq!(
        RequestKind::of(&ApiRequest::Disconnect { session: 3 }),
        RequestKind::Disconnected(SessionId(3))
    );
    assert_eq!(RequestKind::of(&ApiRequest::Look { session: 3 }), RequestKind::Other);
}

#[test]
fn a_connection_cleans_up_after_itself() {
    let mut e = engine();
    let bystander = e.connect(EntityId::new("player/bystander").unwrap());
    let mut connection = ApiConnection::new();
    for req in [
        ApiRequest::Connect,
        ApiRequest::ConnectAs { actor: "player/mcp-builder".to_string() },
        ApiRequest::ConnectAs { actor: "not an id".to_string() },
        ApiRequest::Connect,
    ] {
        connection.begin(&mut e, req, &start());
    }
    let anon0 = EntityId::new("player/anon-0").unwrap();
    let anon1 = EntityId::new("player/anon-1").unwrap();
    let builder = EntityId::new("player/mcp-builder").unwrap();
    // Sessions 1 and 3 are players, session 2 the builder.
    connection.begin(&mut e, ApiRequest::Disconnect { session: 1 }, &start());
    assert!(e.realm().mob(&anon0).is_none());
    assert!(e.realm().mob(&anon1).is_some());
    connection.finish(&mut e);
    assert!(e.realm().mob(&anon1).is_none());
    assert!(e.realm().mob(&builder).is_some());
    for session in 1..4 {
        assert_eq!(e.session_actor(SessionId(session)), None);
    }
    assert!(e.session_actor(bystander).is_some());
}

#[test]
fn waiting_ends_with_the_drain_or_after_many_attempts() {
    let mut wait = DrainWait::new(5);
    assert!(wait.keep_waiting(5));
    assert!(wait.keep_waiting(4));
    assert!(!wait.keep_waiting(6));
    let mut stuck = DrainWait::new(5);
    let mut attempts = 0;
    while stuck.keep_waiting(5) {
        attempts += 1;
    }
    assert_eq!(attempts, 300);
}

#[test]
fn dig_errors_are_put_in_words() {
    let text = || "x".to_string();
    assert_eq!(dig_error_in_words(&DigError::NoSession, "?"), "NoSession");
    assert_eq!(dig_error_in_words(&DigError::NoLocation, "?"), "NoLocation");
    assert_eq!(dig_error_in_words(&DigError::RoomExists, "?"), "RoomExists");
    assert_eq!(dig_error_in_words(&DigError::InvalidId(text()), "<x>"), "InvalidId(<x>)");
    let io = DigError::Store(StoreError::Io(text()));
    assert_eq!(dig_error_in_words(&io, "<x>"), "Store(Io(<x>))");
    let parse = DigError::Store(StoreError::Parse(text()));
    assert_eq!(dig_error_in_words(&parse, "<x>"), "Store(Parse(<x>))");
    let git = DigError::Store(StoreError::Git(text()));
    assert_eq!(dig_error_in_words(&git, "<x>"), "Store(Git(<x>))");
}

#[test]
fn a_named_actor_survives_an_explicit_disconnect() {
    let mut e = engine();
    let builder = EntityId::new("player/mcp-builder").unwrap();
    let anon = EntityId::new("player/anon-0").unwrap();
    let attach = || ApiRequest::ConnectAs { actor: "player/mcp-builder".to_string() };
    let mut connection = ApiConnection::new();
    connection.begin(&mut e, ApiRequest::Connect, &start());
    connection.begin(&mut e, attach(), &start());
    assert!(!e.persists(SessionId(0)));
    assert!(e.persists(SessionId(1)));
    connection.begin(&mut e, ApiRequest::Move { session: 1, direction: Direction::North }, &start());
    e.tick();
    connection.begin(&mut e, ApiRequest::Disconnect { session: 1 }, &start());
    assert_eq!(e.session_actor(SessionId(1)), None);
    assert!(e.realm().mob(&builder).is_some());
    connection.finish(&mut e);
    assert_eq!(e.session_actor(SessionId(0)), None);
    assert!(e.realm().mob(&anon).is_none());
    // The builder is where it was, and a later attach finds it there.
    let well = EntityId::new("snakewood/old-well").unwrap();
    assert_eq!(e.realm().mob_location(&builder), Some(&well));
    run(&mut e, attach());
    assert_eq!(e.realm().mob_location(&builder), Some(&well));
    assert_eq!(e.session_actor(SessionId(2)), Some(&builder));
}
