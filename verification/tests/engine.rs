use std::cell::RefCell;
use std::rc::Rc;
use std::sync::{Arc, Mutex};

use snakewood::fabric::{Party, Predicate, Trigger};
use snakewood::seed;
use snakewood::telnet::beat;
use snakewood::{
    plain_text, Clock, CommitId, DigError, Direction, Effect, Engine, EntityId, Flag, Intent,
    IntentClass, ManualClock, MemoryStore, Mob, Operator, Outcome, PresentationKind,
    PresentationNode, Realm, Responder, Room, Rule, Scope, SessionId, SortedMap, SortedSet,
    StoreError, SystemClock, World, WorldStore,
};

fn id(s: &str) -> EntityId {
    EntityId::new(s).unwrap()
}

fn engine() -> Engine {
    Engine::new(Realm::new(World::default()), Box::new(ManualClock::new(0)))
}

fn world_two_rooms() -> World {
    let mut exits = SortedMap::new();
    exits.insert(Direction::North, id("snakewood/old-well"));
    let mut world = World::default();
    world.insert_room(Room {
        id: id("snakewood/clearing"),
        name: "Snakewood Clearing".to_string(),
        description: "A clearing.".to_string(),
        exits,
    });
    world.insert_room(Room {
        id: id("snakewood/old-well"),
        name: "The Old Well".to_string(),
        description: "A well.".to_string(),
        exits: SortedMap::new(),
    });
    world
}

fn nathan() -> Mob {
    let mut flags = SortedSet::new();
    flags.insert(Flag::Alive);
    Mob {
        id: id("snakewood/pc/nathan"),
        name: "Nathan".to_string(),
        location: id("snakewood/clearing"),
        flags,
        responders: Vec::new(),
    }
}

fn realm_with_nathan() -> Realm {
    let mut realm = Realm::new(world_two_rooms());
    realm.insert_mob(nathan());
    realm
}

/// A clock that can be moved on while an engine holds it.
struct SharedClock(Arc<Mutex<ManualClock>>);

impl Clock for SharedClock {
    fn now_unix(&self) -> i64 {
        self.0.lock().unwrap().now_unix()
    }
}

/// A store that outlives the engine it is given to, as a directory would.
#[derive(Clone)]
struct SharedStore(Rc<RefCell<MemoryStore>>);

impl SharedStore {
    fn new() -> SharedStore {
        SharedStore(Rc::new(RefCell::new(MemoryStore::new())))
    }
}

impl WorldStore for SharedStore {
    fn save_room(&mut self, room: &Room) -> Result<(), StoreError> {
        self.0.borrow_mut().save_room(room)
    }
    fn load_all(&self) -> Result<World, StoreError> {
        self.0.borrow().load_all()
    }
    fn commit(&mut self, message: &str, epoch_seconds: i64) -> Result<CommitId, StoreError> {
        self.0.borrow_mut().commit(message, epoch_seconds)
    }
    fn commit_log(&self) -> Vec<String> {
        self.0.borrow().commit_log()
    }
    fn save_mob(&mut self, mob: &Mob) -> Result<(), StoreError> {
        self.0.borrow_mut().save_mob(mob)
    }
    fn remove_mob(&mut self, id: &EntityId) -> Result<(), StoreError> {
        self.0.borrow_mut().remove_mob(id)
    }
    fn load_mobs(&self) -> Result<Vec<Mob>, StoreError> {
        self.0.borrow().load_mobs()
    }
    fn save_rules(&mut self, rules: &[Rule]) -> Result<(), StoreError> {
        self.0.borrow_mut().save_rules(rules)
    }
    fn load_rules(&self) -> Result<Vec<Rule>, StoreError> {
        self.0.borrow().load_rules()
    }
    fn save_operators(&mut self, operators: &[Operator]) -> Result<(), StoreError> {
        self.0.borrow_mut().save_operators(operators)
    }
    fn load_operators(&self) -> Result<Vec<Operator>, StoreError> {
        self.0.borrow().load_operators()
    }
}

/// A store that fails whatever it is asked.
struct BrokenStore;

fn broken<T>() -> Result<T, StoreError> {
    Err(StoreError::Io("disk full".to_string()))
}

impl WorldStore for BrokenStore {
    fn save_room(&mut self, _room: &Room) -> Result<(), StoreError> {
        broken()
    }
    fn load_all(&self) -> Result<World, StoreError> {
        broken()
    }
    fn commit(&mut self, _message: &str, _epoch_seconds: i64) -> Result<CommitId, StoreError> {
        broken()
    }
    fn commit_log(&self) -> Vec<String> {
        Vec::new()
    }
    fn save_mob(&mut self, _mob: &Mob) -> Result<(), StoreError> {
        broken()
    }
    fn remove_mob(&mut self, _id: &EntityId) -> Result<(), StoreError> {
        broken()
    }
    fn load_mobs(&self) -> Result<Vec<Mob>, StoreError> {
        broken()
    }
    fn save_rules(&mut self, _rules: &[Rule]) -> Result<(), StoreError> {
        broken()
    }
    fn load_rules(&self) -> Result<Vec<Rule>, StoreError> {
        broken()
    }
    fn save_operators(&mut self, _operators: &[Operator]) -> Result<(), StoreError> {
        broken()
    }
    fn load_operators(&self) -> Result<Vec<Operator>, StoreError> {
        broken()
    }
}

fn engine_with_store_and_actor(store: SharedStore, start: i64) -> (Engine, SessionId) {
    let mut e = Engine::new(realm_with_nathan(), Box::new(ManualClock::new(start)));
    e.attach_store(Box::new(store));
    let sid = e.connect(id("snakewood/pc/nathan"));
    (e, sid)
}

fn engine_with_actor() -> (Engine, SessionId, EntityId) {
    let actor = id("snakewood/pc/nathan");
    let mut e = Engine::new(realm_with_nathan(), Box::new(ManualClock::new(0)));
    let sid = e.connect(actor.clone());
    (e, sid, actor)
}

fn engine_with_actor_and_ops(ops: Vec<Operator>) -> (Engine, SessionId, EntityId) {
    let (mut e, sid, actor) = engine_with_actor();
    e.realm_mut().operators = ops;
    (e, sid, actor)
}

fn go(actor: &EntityId, direction: Direction) -> Intent {
    Intent::Move { actor: actor.clone(), direction }
}

// --- clocks ---------------------------------------------------------------------

#[test]
fn manual_clock_starts_at_and_advances() {
    let mut clock = ManualClock::new(1000);
    assert_eq!(clock.now_unix(), 1000);
    clock.advance(60);
    assert_eq!(clock.now_unix(), 1060);
    clock.set(5);
    assert_eq!(clock.now_unix(), 5);
}

#[test]
fn manual_clock_wraps_around() {
    let mut clock = ManualClock::new(i64::MAX);
    clock.advance(1);
    assert_eq!(clock.now_unix(), i64::MIN);
    clock.advance(-1);
    assert_eq!(clock.now_unix(), i64::MAX);
}

#[test]
fn system_clock_is_after_2020() {
    // 2020-01-01 UTC = 1_577_836_800. A real clock must be well past this.
    assert!(SystemClock.now_unix() > 1_577_836_800);
}

#[test]
fn unix_seconds_are_zero_before_the_epoch() {
    assert_eq!(snakewood::clock::unix_seconds(None), 0);
    assert_eq!(snakewood::clock::unix_seconds(Some(1_577_836_800)), 1_577_836_800);
    assert_eq!(snakewood::clock::unix_seconds(Some(u64::MAX)), -1);
}

// --- draining -------------------------------------------------------------------

#[test]
fn drain_rate_limits_moves_across_ticks() {
    // north then south is a round trip between the two rooms.
    let ops = vec![Operator::RateLimit {
        on: IntentClass::Move,
        per_ticks: 2,
        scope: Scope::PerActor,
        deny: Some("Too fast.".to_string()),
    }];
    let (mut e, sid, actor) = engine_with_actor_and_ops(ops);

    // Tick 1: enqueue two moves (N then S). Only the first is admitted.
    e.enqueue(sid, go(&actor, Direction::North));
    e.enqueue(sid, go(&actor, Direction::South));
    e.tick();
    // First move (north) committed; second dropped -> still at old-well.
    assert_eq!(
        e.realm().mob_location(&actor).map(|r| r.as_str()),
        Some("snakewood/old-well")
    );
    let out = e.poll(sid);
    // The dropped move produced a Denied node with the configured text.
    assert!(out.iter().any(|n| *n == PresentationNode::Denied(plain_text("Too fast."))));
}

#[test]
fn a_dropped_intent_without_text_gets_the_realms() {
    let ops = vec![Operator::RateLimit {
        on: IntentClass::Look,
        per_ticks: 2,
        scope: Scope::Global,
        deny: None,
    }];
    let (mut e, sid, actor) = engine_with_actor_and_ops(ops);
    e.enqueue(sid, Intent::Look { actor: actor.clone() });
    e.tick();
    e.poll(sid);
    e.enqueue(sid, Intent::Look { actor: actor.clone() });
    e.tick();
    assert_eq!(
        e.poll(sid),
        vec![PresentationNode::Denied(plain_text("You can't do that yet."))]
    );
    e.enqueue(sid, Intent::Look { actor });
    e.tick();
    assert!(e.poll(sid).contains(&PresentationNode::RoomName("Snakewood Clearing".to_string())));
}

#[test]
fn drain_coalesces_repeated_room_views_in_one_tick() {
    // No rate limit; coalesce room-view kinds. Two Looks in one tick each emit a
    // full room view; they collapse to one.
    let ops = vec![Operator::Coalesce {
        on: vec![
            PresentationKind::RoomName,
            PresentationKind::RoomDescription,
            PresentationKind::Exits,
            PresentationKind::Occupants,
        ],
        within_ticks: 1,
        scope: Scope::PerActor,
    }];
    let (mut e, sid, actor) = engine_with_actor_and_ops(ops);
    e.enqueue(sid, Intent::Look { actor: actor.clone() });
    e.enqueue(sid, Intent::Look { actor: actor.clone() });
    e.tick();
    let out = e.poll(sid);
    // Exactly one RoomName survives, naming the actor's room.
    let room_names: Vec<&PresentationNode> =
        out.iter().filter(|n| matches!(n, PresentationNode::RoomName(_))).collect();
    assert_eq!(room_names.len(), 1, "views not coalesced: {out:?}");
    assert_eq!(room_names[0], &PresentationNode::RoomName("Snakewood Clearing".to_string()));
}

#[test]
fn coalescing_leaves_the_view_of_the_last_room() {
    let ops = vec![Operator::Coalesce {
        on: vec![PresentationKind::RoomName],
        within_ticks: 1,
        scope: Scope::PerActor,
    }];
    let (mut e, sid, actor) = engine_with_actor_and_ops(ops);
    e.enqueue(sid, Intent::Look { actor: actor.clone() });
    e.enqueue(sid, go(&actor, Direction::North));
    e.tick();
    let out = e.poll(sid);
    assert!(out.contains(&PresentationNode::RoomName("The Old Well".to_string())));
    assert!(!out.contains(&PresentationNode::RoomName("Snakewood Clearing".to_string())));
    // Kinds that are not listed are all there.
    assert_eq!(out.iter().filter(|n| matches!(n, PresentationNode::Exits(_))).count(), 2);
}

#[test]
fn drain_with_no_operators_dispatches_normally() {
    let (mut e, sid, actor) = engine_with_actor();
    e.enqueue(sid, go(&actor, Direction::North));
    e.tick();
    assert_eq!(
        e.realm().mob_location(&actor).map(|r| r.as_str()),
        Some("snakewood/old-well")
    );
    assert!(e
        .poll(sid)
        .iter()
        .any(|n| *n == PresentationNode::RoomName("The Old Well".to_string())));
}

#[test]
fn enqueue_and_tick_does_what_submit_does() {
    let (mut now, now_sid, actor) = engine_with_actor();
    let (mut later, later_sid, _) = engine_with_actor();
    now.submit(now_sid, go(&actor, Direction::North));
    later.enqueue(later_sid, go(&actor, Direction::North));
    later.tick();
    assert_eq!(now.realm().mobs, later.realm().mobs);
    assert_eq!(now.poll(now_sid), later.poll(later_sid));
}

// --- sessions -------------------------------------------------------------------

#[test]
fn connect_assigns_distinct_ids_and_binds_actor() {
    let mut e = engine();
    let a = EntityId::new("snakewood/pc/a").unwrap();
    let b = EntityId::new("snakewood/pc/b").unwrap();
    let sa = e.connect(a.clone());
    let sb = e.connect(b.clone());
    assert_ne!(sa, sb);
    assert_eq!(e.session_actor(sa), Some(&a));
    assert_eq!(e.session_actor(sb), Some(&b));
}

#[test]
fn session_ids_are_not_given_out_again() {
    let mut e = engine();
    let first = e.connect(id("snakewood/pc/a"));
    e.disconnect(first);
    let second = e.connect(id("snakewood/pc/a"));
    assert_ne!(first, second);
    assert_eq!(e.mint_anon_seq(), 0);
    assert_eq!(e.mint_anon_seq(), 1);
    assert!(e.can_connect());
    assert!(e.can_tick());
}

#[test]
fn disconnect_removes_session() {
    let mut e = engine();
    let a = EntityId::new("snakewood/pc/a").unwrap();
    let sa = e.connect(a);
    assert!(e.disconnect(sa).is_some());
    assert_eq!(e.session_actor(sa), None);
    assert!(e.disconnect(sa).is_none());
}

#[test]
fn submit_move_routes_arrival_view_to_session_and_relocates() {
    let (mut e, sid, actor) = engine_with_actor();
    e.submit(sid, go(&actor, Direction::North));
    // world state changed
    assert_eq!(
        e.realm().mob_location(&actor).map(|r| r.as_str()),
        Some("snakewood/old-well")
    );
    // arrival view delivered to the session
    let view = e.poll(sid);
    assert!(view.contains(&PresentationNode::RoomName("The Old Well".to_string())));
    // draining leaves the outbox empty
    assert!(e.poll(sid).is_empty());
}

#[test]
fn submit_move_no_exit_routes_fallback_message() {
    let (mut e, sid, actor) = engine_with_actor();
    e.submit(sid, go(&actor, Direction::South));
    let view = e.poll(sid);
    assert!(view.contains(&PresentationNode::Denied(plain_text(
        "You see no exit in that direction."
    ))));
}

#[test]
fn submit_on_unknown_session_is_noop() {
    let (mut e, _sid, actor) = engine_with_actor();
    e.submit(SessionId(999), Intent::Look { actor });
    assert!(e.poll(SessionId(999)).is_empty());
}

#[test]
fn submit_ignores_intent_acting_as_a_different_actor() {
    // A session bound to "nathan" cannot drive some other actor.
    let (mut e, sid, _actor) = engine_with_actor();
    let other = EntityId::new("snakewood/pc/impostor").unwrap();
    e.submit(sid, go(&other, Direction::North));
    // The bound actor did not move, the foreign actor is untouched, and the
    // session received nothing.
    assert_eq!(
        e.realm()
            .mob_location(&EntityId::new("snakewood/pc/nathan").unwrap())
            .map(|r| r.as_str()),
        Some("snakewood/clearing")
    );
    assert!(e.realm().mob_location(&other).is_none());
    assert!(e.poll(sid).is_empty());
}

#[test]
fn every_session_of_an_actor_receives_and_no_other() {
    let (mut e, sid, actor) = engine_with_actor();
    let twin = e.connect(actor.clone());
    let other = e.connect(id("snakewood/pc/other"));
    e.submit(sid, Intent::Look { actor });
    assert_eq!(e.sessions_with_pending(), vec![sid, twin]);
    assert_eq!(e.poll(sid), e.poll(twin));
    assert!(e.poll(other).is_empty());
    assert!(e.sessions_with_pending().is_empty());
}

#[test]
fn enqueue_authorizes_and_buffers_without_dispatching() {
    let (mut e, sid, actor) = engine_with_actor();
    // Enqueue does not dispatch: position unchanged, outbox empty, queue holds 1.
    e.enqueue(sid, go(&actor, Direction::North));
    assert_eq!(
        e.realm().mob_location(&actor).map(|r| r.as_str()),
        Some("snakewood/clearing")
    );
    assert!(e.poll(sid).is_empty());
    assert_eq!(e.drain_count(), 0);
}

#[test]
fn enqueue_rejects_foreign_actor() {
    let (mut e, sid, _actor) = engine_with_actor();
    let stranger = EntityId::new("snakewood/pc/stranger").unwrap();
    e.enqueue(sid, go(&stranger, Direction::North));
    // Nothing queued: a later tick drains nothing and drain_count still advances by 1.
    let before = e.drain_count();
    e.tick();
    assert_eq!(e.drain_count(), before + 1);
    // The unauthorized move never happened.
    assert!(e.sessions_with_pending().is_empty());
}

#[test]
fn tick_advances_counter() {
    let mut e = engine();
    assert_eq!(e.tick_count(), 0);
    assert_eq!(e.tick(), 1);
    assert_eq!(e.tick(), 2);
    assert_eq!(e.tick_count(), 2);
}

#[test]
fn now_unix_reflects_injected_clock() {
    let mut clock = ManualClock::new(500);
    // Keep a handle-free clock by advancing before moving into the engine.
    clock.advance(100); // now 600
    let e = Engine::new(Realm::new(World::default()), Box::new(clock));
    assert_eq!(e.now_unix(), 600);
}

// --- persistence ----------------------------------------------------------------

#[test]
fn attach_store_sets_flag_and_snapshot_time() {
    let clock = ManualClock::new(4242);
    let store = SharedStore::new();
    let mut e = Engine::new(Realm::new(World::default()), Box::new(clock));
    assert!(!e.has_store());
    e.attach_store(Box::new(store));
    assert!(e.has_store());
}

#[test]
fn boot_loads_realm_from_store() {
    // Pre-populate a store, commit, then boot an Engine from it.
    let shared = SharedStore::new();
    {
        let mut store = shared.clone();
        let mut realm = Realm::new(world_two_rooms());
        let mut goblin = nathan();
        goblin.id = id("snakewood/mob/goblin#1");
        goblin.name = "a goblin".to_string();
        realm.insert_mob(goblin);
        store.save_realm(&realm).unwrap();
        store.commit("seed", 1000).unwrap();
    }
    let e = Engine::boot(Box::new(shared), Box::new(ManualClock::new(2000))).unwrap();
    assert!(e
        .realm()
        .world
        .room(&EntityId::new("snakewood/clearing").unwrap())
        .is_some());
    assert!(e.realm().mob(&EntityId::new("snakewood/mob/goblin#1").unwrap()).is_some());
    assert!(e.has_store());
}

#[test]
fn checkpoint_persists_live_state_across_a_restart() {
    let shared = SharedStore::new();
    // First engine: seed a world with an actor, move it, checkpoint.
    {
        let (mut e, sid) = engine_with_store_and_actor(shared.clone(), 1000);
        e.submit(sid, go(&id("snakewood/pc/nathan"), Direction::North));
        e.checkpoint("player moved north").unwrap();
    }
    assert_eq!(shared.commit_log(), vec!["player moved north".to_string()]);
    // Second engine: boot from the same store; the actor is at the moved location.
    let e2 = Engine::boot(Box::new(shared), Box::new(ManualClock::new(2000))).unwrap();
    assert_eq!(
        e2.realm()
            .mob_location(&EntityId::new("snakewood/pc/nathan").unwrap())
            .map(|r| r.as_str()),
        Some("snakewood/old-well")
    );
    // Sessions are runtime-only; a freshly booted engine has none.
    assert_eq!(e2.session_actor(SessionId(0)), None);
}

#[test]
fn live_position_survives_a_daemon_restart() {
    let shared = SharedStore::new();
    // First run: connect, walk north, checkpoint, then the engine goes away.
    {
        let (mut engine, sid) = engine_with_store_and_actor(shared.clone(), 1000);
        engine.enqueue(sid, go(&id("snakewood/pc/nathan"), Direction::North));
        engine.tick();
        assert_eq!(
            engine.realm().mob_location(&id("snakewood/pc/nathan")).map(|r| r.as_str()),
            Some("snakewood/old-well")
        );
        engine.checkpoint("nathan walked north").unwrap();
    }
    // Second run: boot from the same store. Position persisted; no sessions.
    let engine = Engine::boot(Box::new(shared), Box::new(ManualClock::new(5000))).unwrap();
    assert_eq!(
        engine.realm().mob_location(&id("snakewood/pc/nathan")).map(|r| r.as_str()),
        Some("snakewood/old-well")
    );
    assert_eq!(engine.session_actor(SessionId(0)), None);
}

#[test]
fn checkpoint_without_store_is_ok_noop() {
    let mut e = engine();
    assert!(e.checkpoint("nothing to persist").is_ok());
}

#[test]
fn maybe_snapshot_waits_for_the_interval() {
    let control = Arc::new(Mutex::new(ManualClock::new(0)));
    let mut e = Engine::new(realm_with_nathan(), Box::new(SharedClock(control.clone())));
    let shared = SharedStore::new();
    e.attach_store(Box::new(shared.clone()));
    e.set_snapshot_interval(3600);

    // Not enough time elapsed -> no snapshot.
    control.lock().unwrap().advance(100);
    assert!(!e.maybe_snapshot().unwrap());

    // Cross the interval -> snapshot commits.
    control.lock().unwrap().advance(3600);
    assert!(e.maybe_snapshot().unwrap());

    // Immediately after, not due again.
    assert!(!e.maybe_snapshot().unwrap());
    assert_eq!(shared.commit_log(), vec!["interval snapshot".to_string()]);
}

#[test]
fn maybe_snapshot_without_interval_is_false() {
    let (mut e, _sid) = engine_with_store_and_actor(SharedStore::new(), 0);
    // No interval configured.
    assert!(!e.maybe_snapshot().unwrap());
}

#[test]
fn a_due_snapshot_without_store_commits_nothing() {
    let mut e = Engine::new(realm_with_nathan(), Box::new(ManualClock::new(i64::MAX)));
    e.set_snapshot_interval(1);
    assert_eq!(e.maybe_snapshot(), Ok(false));
}

#[test]
fn elapsed_time_does_not_overflow() {
    let control = Arc::new(Mutex::new(ManualClock::new(i64::MIN)));
    let mut e = Engine::new(realm_with_nathan(), Box::new(SharedClock(control.clone())));
    e.attach_store(Box::new(SharedStore::new()));
    e.set_snapshot_interval(3600);
    control.lock().unwrap().set(i64::MAX);
    assert_eq!(e.maybe_snapshot(), Ok(true));
}

#[test]
fn a_failing_store_is_reported_and_the_snapshot_stays_due() {
    let (mut e, _sid, _actor) = engine_with_actor();
    e.attach_store(Box::new(BrokenStore));
    e.set_snapshot_interval(0);
    let failure = StoreError::Io("disk full".to_string());
    assert_eq!(e.checkpoint("now"), Err(StoreError::Io("disk full".to_string())));
    assert_eq!(e.maybe_snapshot(), Err(failure));
    assert!(Engine::boot(Box::new(BrokenStore), Box::new(ManualClock::new(0))).is_err());
}

#[test]
fn a_beat_ticks_and_snapshots() {
    let shared = SharedStore::new();
    let (mut e, _sid) = engine_with_store_and_actor(shared.clone(), 0);
    assert_eq!(beat(&mut e), Ok(false));
    e.set_snapshot_interval(0);
    assert_eq!(beat(&mut e), Ok(true));
    assert_eq!(e.tick_count(), 2);
    assert_eq!(shared.commit_log(), vec!["interval snapshot".to_string()]);
}

// --- digging --------------------------------------------------------------------

#[test]
fn dig_creates_linked_room_and_persists() {
    let shared = SharedStore::new();
    let new_room_str = "snakewood/hollow";
    {
        // clearing --north--> old-well
        let (mut e, sid) = engine_with_store_and_actor(shared.clone(), 1000);
        // Dig east from the clearing into a new hollow.
        let created =
            e.dig(sid, Direction::East, new_room_str, "A Hollow", "A mossy hollow.").unwrap();
        assert_eq!(created.as_str(), new_room_str);
        // The new room exists with a back-exit west to the clearing.
        let hollow = e.realm().world.room(&EntityId::new(new_room_str).unwrap()).unwrap();
        assert_eq!(
            hollow.exits.get(&Direction::West).map(|r| r.as_str()),
            Some("snakewood/clearing")
        );
        // The clearing now has an east exit to the hollow.
        let clearing =
            e.realm().world.room(&EntityId::new("snakewood/clearing").unwrap()).unwrap();
        assert_eq!(
            clearing.exits.get(&Direction::East).map(|r| r.as_str()),
            Some(new_room_str)
        );
    }
    assert_eq!(shared.commit_log(), vec!["dig snakewood/hollow".to_string()]);
    // Persisted: a fresh boot from the same store has the dug room.
    let e2 = Engine::boot(Box::new(shared), Box::new(ManualClock::new(2000))).unwrap();
    assert!(e2.realm().world.room(&EntityId::new(new_room_str).unwrap()).is_some());
}

#[test]
fn dig_rejects_existing_room() {
    let (mut e, sid, _actor) = engine_with_actor();
    // old-well already exists -> RoomExists.
    let result = e.dig(sid, Direction::East, "snakewood/old-well", "dup", "dup");
    assert!(matches!(result, Err(DigError::RoomExists)));
}

#[test]
fn dig_says_why_it_did_not() {
    let (mut e, sid, actor) = engine_with_actor();
    assert_eq!(
        e.dig(SessionId(77), Direction::East, "snakewood/hollow", "n", "d"),
        Err(DigError::NoSession)
    );
    assert_eq!(
        e.dig(sid, Direction::East, "Not An Id", "n", "d"),
        Err(DigError::InvalidId("Not An Id".to_string()))
    );
    e.realm_mut().mobs.remove(&actor);
    assert_eq!(
        e.dig(sid, Direction::East, "snakewood/hollow", "n", "d"),
        Err(DigError::NoLocation)
    );
    assert!(e.realm().world.room(&id("snakewood/hollow")).is_none());
}

#[test]
fn what_is_dug_stays_where_the_store_fails() {
    let (mut e, sid, _actor) = engine_with_actor();
    e.attach_store(Box::new(BrokenStore));
    assert_eq!(
        e.dig(sid, Direction::Up, "snakewood/tree", "A Tree", "High."),
        Err(DigError::Store(StoreError::Io("disk full".to_string())))
    );
    assert!(e.realm().world.room(&id("snakewood/tree")).is_some());
}

// --- scenarios ------------------------------------------------------------------

#[test]
fn engine_delivers_block_then_passage_after_incapacitation() {
    let mut realm = realm_with_nathan();
    let mut flags = SortedSet::new();
    flags.insert(Flag::Alive);
    flags.insert(Flag::Conscious);
    realm.insert_mob(Mob {
        id: id("snakewood/mob/goblin#1"),
        name: "a snakewood goblin".to_string(),
        location: id("snakewood/clearing"),
        flags,
        responders: vec![Responder {
            on: Trigger::Move(Direction::North),
            require: vec![
                Predicate::Alive(Party::SelfMob),
                Predicate::Conscious(Party::SelfMob),
            ],
            effects: vec![Effect::Narrate(
                Party::Actor,
                "The goblin blocks your way north.".to_string(),
            )],
            outcome: Outcome::Block,
            priority: 0,
        }],
    });
    let mut e = Engine::new(realm, Box::new(ManualClock::new(0)));
    let sid = e.connect(id("snakewood/pc/nathan"));

    // Conscious goblin blocks: the session receives the block line, no relocation.
    e.submit(sid, go(&id("snakewood/pc/nathan"), Direction::North));
    assert_eq!(
        e.realm().mob_location(&id("snakewood/pc/nathan")).map(|r| r.as_str()),
        Some("snakewood/clearing")
    );
    let view = e.poll(sid);
    assert!(view.contains(&PresentationNode::Line(plain_text(
        "The goblin blocks your way north."
    ))));

    // Knock the goblin unconscious: pure state change on the realm, no wiring edits.
    e.realm_mut()
        .mob_mut(&id("snakewood/mob/goblin#1"))
        .unwrap()
        .flags
        .remove(&Flag::Conscious);

    // Same intent now passes; arrival view delivered.
    e.submit(sid, go(&id("snakewood/pc/nathan"), Direction::North));
    assert_eq!(
        e.realm().mob_location(&id("snakewood/pc/nathan")).map(|r| r.as_str()),
        Some("snakewood/old-well")
    );
    let view = e.poll(sid);
    assert!(view.contains(&PresentationNode::RoomName("The Old Well".to_string())));
    assert!(!view.contains(&PresentationNode::Line(plain_text(
        "The goblin blocks your way north."
    ))));
}

#[test]
fn an_empty_world_is_seeded_once() {
    let shared = SharedStore::new();
    let mut e = Engine::boot(Box::new(shared.clone()), Box::new(ManualClock::new(1))).unwrap();
    seed::seed_if_empty(&mut e).unwrap();
    seed::seed_operators_if_empty(&mut e).unwrap();
    assert_eq!(e.realm().world.rooms.len(), 2);
    let clearing = e.realm().world.room(&seed::start_room()).unwrap();
    assert_eq!(clearing.name, "Snakewood Clearing");
    assert_eq!(
        clearing.exits.get(&Direction::North).map(|r| r.as_str()),
        Some("snakewood/old-well")
    );
    let well = e.realm().world.room(&id("snakewood/old-well")).unwrap();
    assert_eq!(
        well.exits.get(&Direction::South).map(|r| r.as_str()),
        Some("snakewood/clearing")
    );
    assert_eq!(
        e.realm().operators,
        vec![
            Operator::RateLimit {
                on: IntentClass::Move,
                per_ticks: 4,
                scope: Scope::PerActor,
                deny: Some("You catch your breath before moving again.".to_string()),
            },
            Operator::Coalesce {
                on: vec![
                    PresentationKind::RoomName,
                    PresentationKind::RoomDescription,
                    PresentationKind::Exits,
                    PresentationKind::Occupants,
                ],
                within_ticks: 1,
                scope: Scope::PerActor,
            },
        ]
    );
    // Nothing is left to seed.
    seed::seed_if_empty(&mut e).unwrap();
    seed::seed_operators_if_empty(&mut e).unwrap();
    assert_eq!(
        shared.commit_log(),
        vec!["seed starter world".to_string(), "seed M2 operators".to_string()]
    );
}

/// A store that notes what it is asked, and fails at one of the calls.
struct NotingStore {
    calls: Rc<RefCell<Vec<String>>>,
    fails_at: &'static str,
}

impl NotingStore {
    fn note<T>(&self, call: &str, value: T) -> Result<T, StoreError> {
        self.calls.borrow_mut().push(call.to_string());
        if self.fails_at == call {
            Err(StoreError::Io(format!("cannot {call}")))
        } else {
            Ok(value)
        }
    }
}

impl WorldStore for NotingStore {
    fn save_room(&mut self, room: &Room) -> Result<(), StoreError> {
        self.note(&format!("save {}", room.id.as_str()), ())
    }
    fn load_all(&self) -> Result<World, StoreError> {
        self.note("load rooms", world_two_rooms())
    }
    fn commit(&mut self, message: &str, at: i64) -> Result<CommitId, StoreError> {
        self.note(&format!("commit {message} at {at}"), CommitId("c".to_string()))
    }
    fn commit_log(&self) -> Vec<String> {
        Vec::new()
    }
    fn save_mob(&mut self, mob: &Mob) -> Result<(), StoreError> {
        self.note(&format!("save {}", mob.id.as_str()), ())
    }
    fn remove_mob(&mut self, id: &EntityId) -> Result<(), StoreError> {
        self.note(&format!("remove {}", id.as_str()), ())
    }
    fn load_mobs(&self) -> Result<Vec<Mob>, StoreError> {
        let mut gone = nathan();
        gone.id = id("snakewood/pc/gone");
        self.note("load mobs", vec![gone, nathan()])
    }
    fn save_rules(&mut self, _rules: &[Rule]) -> Result<(), StoreError> {
        self.note("save rules", ())
    }
    fn load_rules(&self) -> Result<Vec<Rule>, StoreError> {
        self.note("load rules", Vec::new())
    }
    fn save_operators(&mut self, _operators: &[Operator]) -> Result<(), StoreError> {
        self.note("save operators", ())
    }
    fn load_operators(&self) -> Result<Vec<Operator>, StoreError> {
        self.note("load operators", Vec::new())
    }
}

#[test]
fn a_checkpoint_saves_and_then_commits_and_stops_at_a_failure() {
    let all = [
        "save snakewood/clearing",
        "save snakewood/old-well",
        "load mobs",
        "remove snakewood/pc/gone",
        "save snakewood/pc/nathan",
        "save rules",
        "save operators",
        "commit now at 7",
    ];
    for (n, fails_at) in all.iter().copied().enumerate() {
        let calls = Rc::new(RefCell::new(Vec::new()));
        let mut e = Engine::new(realm_with_nathan(), Box::new(ManualClock::new(7)));
        e.attach_store(Box::new(NotingStore { calls: calls.clone(), fails_at }));
        assert_eq!(e.checkpoint("now"), Err(StoreError::Io(format!("cannot {fails_at}"))));
        assert_eq!(*calls.borrow(), all[..=n]);
    }
    let calls = Rc::new(RefCell::new(Vec::new()));
    let mut e = Engine::new(realm_with_nathan(), Box::new(ManualClock::new(7)));
    e.attach_store(Box::new(NotingStore { calls: calls.clone(), fails_at: "" }));
    assert_eq!(e.checkpoint("now"), Ok(()));
    assert_eq!(*calls.borrow(), all);
}

#[test]
fn a_failing_snapshot_returns_the_error_and_stays_due() {
    let calls = Rc::new(RefCell::new(Vec::new()));
    let clock = Arc::new(Mutex::new(ManualClock::new(0)));
    let mut e = Engine::new(realm_with_nathan(), Box::new(SharedClock(clock.clone())));
    e.attach_store(Box::new(NotingStore { calls, fails_at: "save rules" }));
    e.set_snapshot_interval(5);
    assert_eq!(e.maybe_snapshot(), Ok(false));
    clock.lock().unwrap().advance(5);
    for _ in 0..2 {
        assert_eq!(e.maybe_snapshot(), Err(StoreError::Io("cannot save rules".to_string())));
    }
}

#[test]
fn boot_returns_the_error_of_the_load() {
    let all = ["load rooms", "load mobs", "load rules", "load operators"];
    for (n, fails_at) in all.iter().copied().enumerate() {
        let calls = Rc::new(RefCell::new(Vec::new()));
        let store = NotingStore { calls: calls.clone(), fails_at };
        match Engine::boot(Box::new(store), Box::new(ManualClock::new(0))) {
            Ok(_) => panic!("booted"),
            Err(e) => assert_eq!(e, StoreError::Io(format!("cannot {fails_at}"))),
        }
        assert_eq!(*calls.borrow(), all[..=n]);
    }
    let calls = Rc::new(RefCell::new(Vec::new()));
    let store = NotingStore { calls: calls.clone(), fails_at: "" };
    match Engine::boot(Box::new(store), Box::new(ManualClock::new(0))) {
        Ok(e) => {
            assert!(e.has_store());
            assert_eq!(e.tick_count(), 0);
            assert_eq!(e.drain_count(), 0);
            assert_eq!(e.realm().mob(&id("snakewood/pc/nathan")), Some(&nathan()));
        }
        Err(_) => panic!("not booted"),
    }
    assert_eq!(*calls.borrow(), all);
}

#[test]
fn one_drain_under_a_rate_limit() {
    let mut realm = realm_with_nathan();
    realm.operators = vec![Operator::RateLimit {
        on: IntentClass::Move,
        per_ticks: 1,
        scope: Scope::PerActor,
        deny: None,
    }];
    let mut e = Engine::new(realm, Box::new(ManualClock::new(0)));
    let actor = id("snakewood/pc/nathan");
    let first = e.connect(actor.clone());
    let second = e.connect(actor.clone());
    for _ in 0..3 {
        e.enqueue(first, Intent::Move { actor: actor.clone(), direction: Direction::North });
        e.enqueue(first, Intent::Look { actor: actor.clone() });
    }
    e.tick();
    let count = |out: &Vec<PresentationNode>, node: &PresentationNode| {
        out.iter().filter(|n| *n == node).count()
    };
    let denied = PresentationNode::Denied(plain_text("You can't do that yet."));
    let well = PresentationNode::RoomName("The Old Well".to_string());
    for session in [first, second] {
        let out = e.poll(session);
        assert_eq!(count(&out, &denied), 2);
        // One arrival, and three looks.
        assert_eq!(count(&out, &well), 4);
    }
}

#[test]
fn a_session_id_is_never_one_in_use() {
    let mut e = engine();
    let a = e.connect(id("player/a"));
    let b = e.connect_as(id("player/b"));
    e.disconnect(a);
    let c = e.connect(id("player/c"));
    assert_eq!((a, b, c), (SessionId(0), SessionId(1), SessionId(2)));
    assert!(e.persists(b));
    assert!(!e.persists(a) && !e.persists(c));
    assert!(e.can_attach() && e.can_connect());
}

#[test]
fn the_wait_for_a_snapshot_starts_at_the_attach() {
    let clock = Arc::new(Mutex::new(ManualClock::new(5000)));
    let store = SharedStore::new();
    let mut e = Engine::new(realm_with_nathan(), Box::new(SharedClock(clock.clone())));
    e.set_snapshot_interval(3600);
    e.attach_store(Box::new(store.clone()));
    assert!(e.has_store());
    assert!(store.commit_log().is_empty());
    clock.lock().unwrap().set(8599);
    assert_eq!(e.maybe_snapshot(), Ok(false));
    assert!(store.commit_log().is_empty());
    clock.lock().unwrap().set(8600);
    assert_eq!(e.maybe_snapshot(), Ok(true));
    assert_eq!(store.commit_log(), vec!["interval snapshot"]);
}

#[test]
fn a_tick_without_operators_submits_the_queue() {
    let build = || {
        let mut realm = realm_with_nathan();
        let mut other = nathan();
        other.id = id("snakewood/pc/other");
        other.name = "Other".to_string();
        realm.insert_mob(other);
        let mut e = Engine::new(realm, Box::new(ManualClock::new(0)));
        let a = e.connect(id("snakewood/pc/nathan"));
        let b = e.connect(id("snakewood/pc/other"));
        (e, a, b)
    };
    let intents = |a: SessionId, b: SessionId| {
        let (nathan, other) = (id("snakewood/pc/nathan"), id("snakewood/pc/other"));
        vec![
            (a, Intent::Look { actor: nathan.clone() }),
            (a, Intent::Move { actor: nathan.clone(), direction: Direction::North }),
            (b, Intent::Look { actor: other.clone() }),
            (b, Intent::Move { actor: other, direction: Direction::Up }),
            (a, Intent::Move { actor: nathan, direction: Direction::North }),
        ]
    };
    let (mut queued, a, b) = build();
    let (mut direct, ..) = build();
    for (session, intent) in intents(a, b) {
        queued.enqueue(session, intent);
    }
    queued.tick();
    for (session, intent) in intents(a, b) {
        direct.submit(session, intent);
    }
    for session in [a, b] {
        let out = queued.poll(session);
        assert!(!out.is_empty());
        assert_eq!(out, direct.poll(session));
        let actor = queued.session_actor(session).unwrap();
        assert_eq!(queued.realm().mob(actor), direct.realm().mob(actor));
    }
}
