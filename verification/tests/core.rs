use snakewood::fabric::{
    eval_predicate, gather, resolve, salient, Candidate, Decision, Party, Predicate, Trigger,
};
use snakewood::{
    coalesce, dispatch, plain_text, Admission, Band, Direction, Effect, EntityId, Event, Flag,
    IdError, Intent, IntentClass, Mob, Operator, Outcome, PresentationKind, PresentationNode,
    RateLimiterState, Realm, Responder, Role, Room, Rule, Scope, SortedMap, SortedSet, Span, World,
};

fn id(s: &str) -> EntityId {
    EntityId::new(s).unwrap()
}

fn exits(list: &[(Direction, &str)]) -> SortedMap<Direction, EntityId> {
    let mut map = SortedMap::new();
    for (direction, to) in list {
        map.insert(*direction, id(to));
    }
    map
}

fn flags(list: &[Flag]) -> SortedSet<Flag> {
    let mut set = SortedSet::new();
    for flag in list {
        set.insert(*flag);
    }
    set
}

fn room(room_id: &str, name: &str, description: &str, ways: &[(Direction, &str)]) -> Room {
    Room {
        id: id(room_id),
        name: name.to_string(),
        description: description.to_string(),
        exits: exits(ways),
    }
}

fn two_rooms() -> World {
    let mut world = World::default();
    world.insert_room(room(
        "snakewood/clearing",
        "Snakewood Clearing",
        "A clearing.",
        &[(Direction::North, "snakewood/old-well")],
    ));
    world.insert_room(room("snakewood/old-well", "The Old Well", "A crumbling well.", &[]));
    world
}

fn actor_id() -> EntityId {
    id("snakewood/pc/nathan")
}

fn actor() -> Mob {
    Mob {
        id: actor_id(),
        name: "Nathan".to_string(),
        location: id("snakewood/clearing"),
        flags: flags(&[Flag::Alive]),
        responders: Vec::new(),
    }
}

fn goblin(state: &[Flag]) -> Mob {
    Mob {
        id: id("snakewood/mob/goblin#1"),
        name: "a snakewood goblin".to_string(),
        location: id("snakewood/clearing"),
        flags: flags(state),
        responders: vec![Responder {
            on: Trigger::Move(Direction::North),
            require: vec![
                Predicate::Alive(Party::SelfMob),
                Predicate::Conscious(Party::SelfMob),
            ],
            effects: vec![Effect::Narrate(
                Party::Actor,
                "The goblin blocks your way north.".to_string(),
            )],
            outcome: Outcome::Block,
            priority: 0,
        }],
    }
}

fn realm_with_actor() -> Realm {
    let mut realm = Realm::new(two_rooms());
    realm.insert_mob(actor());
    realm
}

fn go(direction: Direction) -> Intent {
    Intent::Move { actor: actor_id(), direction }
}

// --- directions ---------------------------------------------------------------

#[test]
fn workspace_builds() {
    assert_eq!(2 + 2, 4);
}

#[test]
fn directions_sort_by_declaration_order() {
    let mut v = vec![Direction::Down, Direction::North, Direction::East];
    v.sort();
    assert_eq!(v, vec![Direction::North, Direction::East, Direction::Down]);
}

#[test]
fn every_direction_leads_back() {
    let all = [
        (Direction::North, Direction::South),
        (Direction::East, Direction::West),
        (Direction::Up, Direction::Down),
    ];
    for (there, back) in all {
        assert_eq!(there.opposite(), back);
        assert_eq!(back.opposite(), there);
        assert_eq!(there.opposite().opposite(), there);
    }
}

// --- ids ----------------------------------------------------------------------

#[test]
fn accepts_namespaced_id() {
    let id = EntityId::new("snakewood/clearing").unwrap();
    assert_eq!(id.as_str(), "snakewood/clearing");
    assert_eq!(id.zone(), "snakewood");
    assert_eq!(id.name(), "clearing");
}

#[test]
fn name_keeps_deeper_segments() {
    let id = EntityId::new("snakewood/mob/goblin").unwrap();
    assert_eq!(id.zone(), "snakewood");
    assert_eq!(id.name(), "mob/goblin");
}

#[test]
fn rejects_empty() {
    assert_eq!(EntityId::new(""), Err(IdError::Empty));
}

#[test]
fn rejects_missing_namespace() {
    assert_eq!(EntityId::new("clearing"), Err(IdError::NoNamespace));
}

#[test]
fn rejects_uppercase() {
    assert_eq!(EntityId::new("Snakewood/clearing"), Err(IdError::InvalidChar('S')));
}

#[test]
fn rejects_leading_or_trailing_slash() {
    assert_eq!(EntityId::new("/snakewood"), Err(IdError::LeadingOrTrailingSlash));
    assert_eq!(EntityId::new("snakewood/"), Err(IdError::LeadingOrTrailingSlash));
}

#[test]
fn id_errors_come_in_order() {
    // A slash at the edge is found before a wrong character, and that before a
    // missing namespace.
    assert_eq!(EntityId::new("/A"), Err(IdError::LeadingOrTrailingSlash));
    assert_eq!(EntityId::new("a b"), Err(IdError::InvalidChar(' ')));
    assert_eq!(EntityId::new("a/b!c?"), Err(IdError::InvalidChar('!')));
    assert_eq!(EntityId::new("a/\u{e9}"), Err(IdError::InvalidChar('\u{e9}')));
    assert!(EntityId::new("a-1/b_2#3").is_ok());
}

#[test]
fn zone_and_name_make_the_id() {
    let whole = id("snakewood/mob/goblin#1");
    assert_eq!(format!("{}/{}", whole.zone(), whole.name()), whole.as_str());
}

// --- sorted collections ---------------------------------------------------------

#[test]
fn sorted_map_keeps_keys_in_order() {
    let mut map: SortedMap<Direction, EntityId> = SortedMap::new();
    assert!(map.is_empty());
    map.insert(Direction::Down, id("a/down"));
    map.insert(Direction::North, id("a/north"));
    map.insert(Direction::East, id("a/east"));
    map.insert(Direction::North, id("b/north"));
    assert_eq!(map.keys(), [Direction::North, Direction::East, Direction::Down]);
    assert_eq!(map.values(), [id("b/north"), id("a/east"), id("a/down")]);
    assert_eq!(map.len(), 3);
    assert_eq!(map.get(&Direction::North), Some(&id("b/north")));
    assert_eq!(map.get(&Direction::Up), None);
    *map.get_mut(&Direction::East).unwrap() = id("c/east");
    assert_eq!(map.get(&Direction::East), Some(&id("c/east")));
    let copy = map.clone();
    assert_eq!(map.remove(&Direction::East), Some(id("c/east")));
    assert_eq!(map.remove(&Direction::East), None);
    assert_eq!(map.keys(), [Direction::North, Direction::Down]);
    assert_eq!(copy.len(), 3);
    assert!(copy.contains_key(&Direction::East));
}

#[test]
fn sorted_set_holds_each_element_once() {
    let mut set = flags(&[Flag::Conscious, Flag::Alive, Flag::Conscious]);
    assert_eq!(set.elements(), [Flag::Alive, Flag::Conscious]);
    assert!(set.remove(&Flag::Alive));
    assert!(!set.remove(&Flag::Alive));
    assert!(!set.contains(&Flag::Alive));
    assert!(set.contains(&Flag::Conscious));
}

// --- world, mobs, realm ---------------------------------------------------------

fn clearing() -> Room {
    room(
        "snakewood/clearing",
        "Snakewood Clearing",
        "Gnarled snakewood trees ring a clearing of trampled grass.",
        &[(Direction::North, "snakewood/old-well")],
    )
}

#[test]
fn insert_and_fetch_room() {
    let mut world = World::default();
    let room = clearing();
    let id = room.id.clone();
    world.insert_room(room.clone());
    assert_eq!(world.room(&id), Some(&room));
}

#[test]
fn missing_room_is_none() {
    let world = World::default();
    let id = EntityId::new("snakewood/nowhere").unwrap();
    assert_eq!(world.room(&id), None);
}

fn lone_goblin() -> Mob {
    Mob {
        id: id("snakewood/mob/goblin-1"),
        name: "a snakewood goblin".to_string(),
        location: id("snakewood/clearing"),
        flags: flags(&[Flag::Alive, Flag::Conscious]),
        responders: Vec::new(),
    }
}

#[test]
fn has_flag_reflects_membership() {
    let g = lone_goblin();
    assert!(g.has_flag(Flag::Alive));
    assert!(g.has_flag(Flag::Conscious));
}

#[test]
fn missing_flag_is_false() {
    let mut g = lone_goblin();
    g.flags.remove(&Flag::Alive);
    assert!(!g.has_flag(Flag::Alive));
}

fn mob_at(mob_id: &str, room: &str) -> Mob {
    Mob {
        id: id(mob_id),
        name: mob_id.to_string(),
        location: id(room),
        flags: flags(&[Flag::Alive]),
        responders: Vec::new(),
    }
}

#[test]
fn mobs_in_room_returns_only_co_located_sorted() {
    let mut realm = Realm::new(World::default());
    realm.insert_mob(mob_at("snakewood/mob/b#1", "snakewood/clearing"));
    realm.insert_mob(mob_at("snakewood/mob/a#1", "snakewood/clearing"));
    realm.insert_mob(mob_at("snakewood/mob/c#1", "snakewood/old-well"));

    let clearing = EntityId::new("snakewood/clearing").unwrap();
    let here: Vec<&str> = realm.mobs_in_room(&clearing).iter().map(|m| m.id.as_str()).collect();
    // Iteration is sorted, so a before b; c is elsewhere.
    assert_eq!(here, vec!["snakewood/mob/a#1", "snakewood/mob/b#1"]);
}

#[test]
fn mob_location_tracks_current_room() {
    let mut realm = Realm::new(World::default());
    realm.insert_mob(mob_at("snakewood/mob/a#1", "snakewood/clearing"));
    let a = EntityId::new("snakewood/mob/a#1").unwrap();
    assert_eq!(realm.mob_location(&a).map(|r| r.as_str()), Some("snakewood/clearing"));
}

#[test]
fn realm_has_default_no_exit_message() {
    let realm = Realm::new(World::default());
    assert_eq!(realm.no_exit_message, "You see no exit in that direction.");
    // Default delegates to new(World::default())
    assert_eq!(Realm::default().no_exit_message, realm.no_exit_message);
}

#[test]
fn realm_starts_with_no_operators_and_default_rate_limit_message() {
    let realm = Realm::new(World::default());
    assert!(realm.operators.is_empty());
    assert_eq!(realm.rate_limit_message, "You can't do that yet.");
}

#[test]
fn span_helpers_carry_their_roles() {
    assert_eq!(Span::plain("hi"), Span { text: "hi".to_string(), role: Role::Default });
    assert_eq!(Span::actor("a goblin"), Span { text: "a goblin".to_string(), role: Role::Actor });
    assert_eq!(plain_text("x"), vec![Span::plain("x")]);
}

// --- triggers, predicates, handlers ----------------------------------------------

#[test]
fn actor_accessor_returns_the_actor() {
    let a = EntityId::new("snakewood/pc/nathan").unwrap();
    let intent = Intent::Move { actor: a.clone(), direction: Direction::North };
    assert_eq!(intent.actor(), &a);
    let look = Intent::Look { actor: a.clone() };
    assert_eq!(look.actor(), &a);
}

fn move_north() -> Intent {
    Intent::Move {
        actor: EntityId::new("snakewood/pc/nathan").unwrap(),
        direction: Direction::North,
    }
}

#[test]
fn exact_direction_matches_only_that_direction() {
    assert!(Trigger::Move(Direction::North).matches(&move_north()));
    assert!(!Trigger::Move(Direction::South).matches(&move_north()));
}

#[test]
fn any_move_matches_all_moves_but_not_look() {
    let look = Intent::Look { actor: EntityId::new("snakewood/pc/nathan").unwrap() };
    assert!(Trigger::AnyMove.matches(&move_north()));
    assert!(!Trigger::AnyMove.matches(&look));
}

#[test]
fn look_trigger_matches_look() {
    let look = Intent::Look { actor: EntityId::new("snakewood/pc/nathan").unwrap() };
    assert!(Trigger::Look.matches(&look));
    assert!(!Trigger::Look.matches(&move_north()));
}

fn realm_with_goblin(alive: bool, conscious: bool) -> (Realm, EntityId, EntityId) {
    let mut state = SortedSet::new();
    if alive {
        state.insert(Flag::Alive);
    }
    if conscious {
        state.insert(Flag::Conscious);
    }
    let goblin_id = EntityId::new("snakewood/mob/goblin#1").unwrap();
    let actor_id = EntityId::new("snakewood/pc/nathan").unwrap();
    let mut realm = Realm::new(World::default());
    realm.insert_mob(Mob {
        id: goblin_id.clone(),
        name: "goblin".to_string(),
        location: EntityId::new("snakewood/clearing").unwrap(),
        flags: state,
        responders: Vec::new(),
    });
    (realm, goblin_id, actor_id)
}

#[test]
fn self_alive_true_when_alive() {
    let (realm, goblin, actor) = realm_with_goblin(true, true);
    assert!(eval_predicate(&realm, &Predicate::Alive(Party::SelfMob), Some(&goblin), &actor));
}

#[test]
fn self_alive_false_when_dead() {
    let (realm, goblin, actor) = realm_with_goblin(false, true);
    assert!(!eval_predicate(&realm, &Predicate::Alive(Party::SelfMob), Some(&goblin), &actor));
}

#[test]
fn self_predicate_false_when_no_self_id() {
    let (realm, _goblin, actor) = realm_with_goblin(true, true);
    assert!(!eval_predicate(&realm, &Predicate::Alive(Party::SelfMob), None, &actor));
}

#[test]
fn conscious_reflects_flag() {
    let (realm, goblin, actor) = realm_with_goblin(true, false);
    assert!(!eval_predicate(&realm, &Predicate::Conscious(Party::SelfMob), Some(&goblin), &actor));
}

#[test]
fn predicates_about_an_absent_actor_fail() {
    let (realm, goblin, actor) = realm_with_goblin(true, true);
    assert!(!eval_predicate(&realm, &Predicate::Alive(Party::Actor), Some(&goblin), &actor));
    assert!(eval_predicate(&realm, &Predicate::Alive(Party::Actor), None, &goblin));
}

#[test]
fn band_rank_orders_participant_most_salient() {
    assert!(Band::Participant.rank() < Band::Structure.rank());
    assert!(Band::Structure.rank() < Band::Global.rank());
}

#[test]
fn intent_class_maps_variants() {
    let mv = Intent::Move {
        actor: EntityId::new("player/anon-0").unwrap(),
        direction: Direction::North,
    };
    let look = Intent::Look { actor: EntityId::new("player/anon-0").unwrap() };
    assert_eq!(IntentClass::of(&mv), IntentClass::Move);
    assert_eq!(IntentClass::of(&look), IntentClass::Look);
}

#[test]
fn presentation_kind_maps_variants() {
    assert_eq!(
        PresentationKind::of(&PresentationNode::RoomName("x".into())),
        PresentationKind::RoomName
    );
    assert_eq!(
        PresentationKind::of(&PresentationNode::Denied(plain_text("no"))),
        PresentationKind::Denied
    );
    assert_eq!(PresentationKind::of(&PresentationNode::Prompt), PresentationKind::Prompt);
}

// --- gather and resolve -----------------------------------------------------------

#[test]
fn gathers_sugar_exit_as_structure_traverse() {
    let realm = realm_with_actor();
    let got = gather(&realm, &go(Direction::North));
    assert_eq!(got.len(), 1);
    assert_eq!(got[0].band, Band::Structure);
    assert_eq!(
        got[0].outcome,
        Outcome::Traverse(EntityId::new("snakewood/old-well").unwrap())
    );
}

#[test]
fn live_goblin_contributes_a_participant_block() {
    let mut realm = realm_with_actor();
    realm.insert_mob(goblin(&[Flag::Alive, Flag::Conscious]));
    let got = gather(&realm, &go(Direction::North));
    // sugar exit (Structure) + goblin block (Participant)
    assert_eq!(got.len(), 2);
    assert!(got.iter().any(|c| c.band == Band::Participant && c.outcome == Outcome::Block));
}

#[test]
fn dead_goblin_contributes_nothing_guarded_out() {
    let mut realm = realm_with_actor();
    realm.insert_mob(goblin(&[])); // no Alive/Conscious flags
    let got = gather(&realm, &go(Direction::North));
    // only the sugar exit; the goblin's require predicates fail
    assert_eq!(got.len(), 1);
    assert_eq!(got[0].band, Band::Structure);
}

#[test]
fn rules_contribute_globally_and_nobody_speaks_to_themselves() {
    let mut realm = realm_with_actor();
    realm.rules.push(Rule {
        on: Trigger::AnyMove,
        require: Vec::new(),
        effects: Vec::new(),
        outcome: Outcome::Allow,
        priority: 3,
    });
    // The actor's own responders take no part in the actor's intents.
    realm.mob_mut(&actor_id()).unwrap().responders.push(Responder {
        on: Trigger::AnyMove,
        require: Vec::new(),
        effects: Vec::new(),
        outcome: Outcome::Block,
        priority: 0,
    });
    let got = gather(&realm, &go(Direction::North));
    assert_eq!(got.len(), 2);
    assert_eq!(got[1].band, Band::Global);
    assert_eq!(got[1].priority, 3);
    assert_eq!(got[1].self_id, None);
    assert_eq!(resolve(&got), Decision::Allowed { destination: id("snakewood/old-well") });
}

fn traverse(band: Band, priority: i32, self_id: Option<&str>, dest: &str) -> Candidate {
    Candidate {
        band,
        priority,
        self_id: self_id.map(id),
        outcome: Outcome::Traverse(id(dest)),
        effects: Vec::new(),
    }
}

fn block(band: Band, priority: i32, self_id: Option<&str>) -> Candidate {
    Candidate {
        band,
        priority,
        self_id: self_id.map(id),
        outcome: Outcome::Block,
        effects: Vec::new(),
    }
}

#[test]
fn any_block_denies_even_with_traverse_present() {
    let cands = vec![
        traverse(Band::Structure, 0, None, "snakewood/old-well"),
        block(Band::Participant, 0, Some("snakewood/mob/goblin#1")),
    ];
    assert_eq!(resolve(&cands), Decision::Denied);
}

#[test]
fn lone_traverse_allows_to_destination() {
    let cands = vec![traverse(Band::Structure, 0, None, "snakewood/old-well")];
    assert_eq!(
        resolve(&cands),
        Decision::Allowed { destination: EntityId::new("snakewood/old-well").unwrap() }
    );
}

#[test]
fn empty_is_unresolved() {
    assert_eq!(resolve(&[]), Decision::Unresolved);
}

#[test]
fn salient_prefers_participant_over_structure() {
    let cands = vec![
        block(Band::Structure, 0, None),
        block(Band::Participant, 0, Some("snakewood/mob/goblin#1")),
    ];
    let s = salient(&cands).unwrap();
    assert_eq!(s.band, Band::Participant);
}

#[test]
fn salient_uses_priority_within_band() {
    let cands = vec![
        block(Band::Participant, 1, Some("snakewood/mob/a#1")),
        block(Band::Participant, 5, Some("snakewood/mob/b#1")),
    ];
    let s = salient(&cands).unwrap();
    assert_eq!(s.priority, 5);
}

#[test]
fn salient_breaks_ties_by_id_whatever_the_order() {
    let a = block(Band::Participant, 1, Some("snakewood/mob/a#1"));
    let b = block(Band::Participant, 1, Some("snakewood/mob/b#1"));
    let none = block(Band::Participant, 1, None);
    let one = vec![b.clone(), none.clone(), a.clone()];
    let other = vec![none, a.clone(), b];
    assert_eq!(salient(&one), Some(&a));
    assert_eq!(salient(&other), Some(&a));
    assert_eq!(salient(&[]), None);
}

#[test]
fn resolve_picks_salient_traverser_destination_not_first() {
    // Two competing open exits: the more-salient (Participant) traverser wins
    // the destination, even though it is NOT first in the slice.
    let cands = vec![
        traverse(Band::Structure, 0, None, "snakewood/via-structure"),
        traverse(Band::Participant, 0, Some("snakewood/mob/guide#1"), "snakewood/via-participant"),
    ];
    assert_eq!(
        resolve(&cands),
        Decision::Allowed { destination: EntityId::new("snakewood/via-participant").unwrap() }
    );
}

// --- dispatch -------------------------------------------------------------------

#[test]
fn move_through_open_exit_relocates_and_emits_moved() {
    let mut realm = realm_with_actor();
    let out = dispatch(&mut realm, go(Direction::North));
    assert_eq!(
        realm.mob_location(&actor_id()).map(|r| r.as_str()),
        Some("snakewood/old-well")
    );
    assert!(out.events.contains(&Event::Moved {
        actor: actor_id(),
        from: EntityId::new("snakewood/clearing").unwrap(),
        to: EntityId::new("snakewood/old-well").unwrap(),
    }));
    // arrival view names the new room
    assert!(out
        .messages
        .iter()
        .any(|(_, n)| *n == PresentationNode::RoomName("The Old Well".to_string())));
}

#[test]
fn move_with_no_exit_is_denied_with_fallback_message() {
    let mut realm = realm_with_actor();
    let out = dispatch(&mut realm, go(Direction::South));
    assert_eq!(
        realm.mob_location(&actor_id()).map(|r| r.as_str()),
        Some("snakewood/clearing")
    );
    assert!(out.messages.iter().any(|(_, n)| *n
        == PresentationNode::Denied(plain_text("You see no exit in that direction."))));
    assert!(out.events.is_empty());
}

#[test]
fn no_exit_message_is_data_driven() {
    let mut realm = realm_with_actor();
    realm.no_exit_message = "There's nothing that way, friend.".to_string();
    let out = dispatch(&mut realm, go(Direction::South));
    assert!(out.messages.iter().any(|(_, n)| *n
        == PresentationNode::Denied(plain_text("There's nothing that way, friend."))));
}

#[test]
fn look_produces_room_view_and_looked_event() {
    let mut realm = realm_with_actor();
    let out = dispatch(&mut realm, Intent::Look { actor: actor_id() });
    assert!(out.events.contains(&Event::Looked {
        actor: actor_id(),
        room: EntityId::new("snakewood/clearing").unwrap(),
    }));
    assert!(out
        .messages
        .iter()
        .any(|(_, n)| *n == PresentationNode::RoomName("Snakewood Clearing".to_string())));
}

#[test]
fn look_shows_the_whole_room_without_the_viewer() {
    let mut realm = realm_with_actor();
    let mut zoe = mob_at("snakewood/mob/a#1", "snakewood/clearing");
    zoe.name = "zoe".to_string();
    let mut amy = mob_at("snakewood/mob/b#1", "snakewood/clearing");
    amy.name = "amy".to_string();
    realm.insert_mob(zoe);
    realm.insert_mob(amy);
    let out = dispatch(&mut realm, Intent::Look { actor: actor_id() });
    let nodes: Vec<PresentationNode> = out.messages.into_iter().map(|(_, n)| n).collect();
    assert_eq!(
        nodes,
        vec![
            PresentationNode::RoomName("Snakewood Clearing".to_string()),
            PresentationNode::RoomDescription(plain_text("A clearing.")),
            PresentationNode::Exits(vec![Direction::North]),
            PresentationNode::Occupants(vec![Span::actor("amy"), Span::actor("zoe")]),
        ]
    );
}

#[test]
fn actor_who_is_nowhere_does_nothing() {
    let mut realm = Realm::new(two_rooms());
    assert_eq!(dispatch(&mut realm, go(Direction::North)).messages, vec![]);
    let out = dispatch(&mut realm, Intent::Look { actor: actor_id() });
    assert!(out.events.is_empty());
    assert!(out.messages.is_empty());
}

#[test]
fn conscious_goblin_blocks_north_with_salient_message() {
    let mut realm = realm_with_actor();
    realm.insert_mob(goblin(&[Flag::Alive, Flag::Conscious]));
    let out = dispatch(&mut realm, go(Direction::North));
    // Actor did NOT move.
    assert_eq!(
        realm.mob_location(&id("snakewood/pc/nathan")).map(|r| r.as_str()),
        Some("snakewood/clearing")
    );
    // No Moved event.
    assert!(!out.events.iter().any(|e| matches!(e, Event::Moved { .. })));
    // The salient (Participant) narration is the goblin's, delivered to the actor.
    assert!(out.messages.contains(&(
        id("snakewood/pc/nathan"),
        PresentationNode::Line(plain_text("The goblin blocks your way north."))
    )));
}

#[test]
fn incapacitated_goblin_stops_blocking_no_wiring_change() {
    let mut realm = realm_with_actor();
    realm.insert_mob(goblin(&[Flag::Alive, Flag::Conscious]));
    // Knock the goblin unconscious: pure state change, no subscription edits.
    realm.mob_mut(&id("snakewood/mob/goblin#1")).unwrap().flags.remove(&Flag::Conscious);

    let out = dispatch(&mut realm, go(Direction::North));

    // Now the actor moves through.
    assert_eq!(
        realm.mob_location(&id("snakewood/pc/nathan")).map(|r| r.as_str()),
        Some("snakewood/old-well")
    );
    assert!(out.events.contains(&Event::Moved {
        actor: id("snakewood/pc/nathan"),
        from: id("snakewood/clearing"),
        to: id("snakewood/old-well"),
    }));
    // The goblin's block message is absent.
    assert!(!out.messages.iter().any(|(_, n)| *n
        == PresentationNode::Line(plain_text("The goblin blocks your way north."))));
}

#[test]
fn a_blocked_move_tells_only_the_room() {
    let mut realm = realm_with_actor();
    let mut guard = goblin(&[Flag::Alive, Flag::Conscious]);
    guard.responders[0]
        .effects
        .push(Effect::Narrate(Party::SelfMob, "You hold your ground.".to_string()));
    realm.insert_mob(guard);
    realm.insert_mob(mob_at("snakewood/mob/far#1", "snakewood/old-well"));
    let out = dispatch(&mut realm, go(Direction::North));
    let told: Vec<&str> = out.messages.iter().map(|(to, _)| to.as_str()).collect();
    assert_eq!(told, vec!["snakewood/pc/nathan", "snakewood/mob/goblin#1"]);
}

#[test]
fn a_move_touches_nobody_else() {
    let mut realm = realm_with_actor();
    realm.insert_mob(mob_at("snakewood/mob/a#1", "snakewood/clearing"));
    let world = realm.world.clone();
    let bystander = realm.mob(&id("snakewood/mob/a#1")).unwrap().clone();
    dispatch(&mut realm, go(Direction::North));
    assert_eq!(realm.world, world);
    assert_eq!(realm.mob(&id("snakewood/mob/a#1")), Some(&bystander));
    assert_eq!(realm.mobs.len(), 2);
}

// --- operators -------------------------------------------------------------------

fn limit(per_ticks: u64, scope: Scope, deny: Option<&str>) -> Operator {
    Operator::RateLimit {
        on: IntentClass::Move,
        per_ticks,
        scope,
        deny: deny.map(|s| s.to_string()),
    }
}

fn refused(deny: Option<&str>) -> Admission {
    Admission::Drop { deny: deny.map(|s| s.to_string()) }
}

#[test]
fn rate_limit_admits_one_per_window() {
    let ops = vec![limit(3, Scope::PerActor, Some("Wait."))];
    let mut state = RateLimiterState::default();
    let a = id("player/a");
    assert_eq!(state.admission(&ops, IntentClass::Move, &a, 1), Admission::Admit);
    assert_eq!(state.admission(&ops, IntentClass::Move, &a, 1), refused(Some("Wait.")));
    assert_eq!(state.admission(&ops, IntentClass::Move, &a, 3), refused(Some("Wait.")));
    assert_eq!(state.admission(&ops, IntentClass::Move, &a, 4), Admission::Admit);
    assert_eq!(state.admission(&ops, IntentClass::Move, &a, 6), refused(Some("Wait.")));
    // Another class is not limited.
    assert_eq!(state.admission(&ops, IntentClass::Look, &a, 4), Admission::Admit);
}

#[test]
fn rate_limit_scope_decides_who_shares_a_window() {
    let a = id("player/a");
    let b = id("player/b");
    let mine = vec![limit(5, Scope::PerActor, None)];
    let mut state = RateLimiterState::default();
    assert_eq!(state.admission(&mine, IntentClass::Move, &a, 1), Admission::Admit);
    assert_eq!(state.admission(&mine, IntentClass::Move, &b, 1), Admission::Admit);
    assert_eq!(state.admission(&mine, IntentClass::Move, &b, 2), refused(None));

    let ours = vec![limit(5, Scope::Global, None)];
    let mut state = RateLimiterState::default();
    assert_eq!(state.admission(&ours, IntentClass::Move, &a, 1), Admission::Admit);
    assert_eq!(state.admission(&ours, IntentClass::Move, &b, 1), refused(None));
}

#[test]
fn a_dropped_intent_counts_with_no_operator() {
    let ops = vec![limit(1, Scope::PerActor, Some("first")), limit(10, Scope::Global, Some("second"))];
    let a = id("player/a");
    let b = id("player/b");
    let mut state = RateLimiterState::default();
    assert_eq!(state.admission(&ops, IntentClass::Move, &a, 1), Admission::Admit);
    // Dropped by the second operator, so the first did not count it either.
    assert_eq!(state.admission(&ops, IntentClass::Move, &b, 2), refused(Some("second")));
    assert_eq!(state.admission(&ops, IntentClass::Move, &b, 11), Admission::Admit);
    // Both would drop: the first has the word.
    assert_eq!(state.admission(&ops, IntentClass::Move, &b, 11), refused(Some("first")));
}

#[test]
fn no_operators_and_empty_windows_admit_everything() {
    let a = id("player/a");
    let mut state = RateLimiterState::default();
    let zero = vec![limit(0, Scope::Global, None)];
    for _ in 0..3 {
        assert_eq!(state.admission(&[], IntentClass::Move, &a, 7), Admission::Admit);
        assert_eq!(state.admission(&zero, IntentClass::Move, &a, 7), Admission::Admit);
    }
}

#[test]
fn coalesce_keeps_the_last_of_each_listed_kind() {
    let nodes = vec![
        PresentationNode::RoomName("A".to_string()),
        PresentationNode::Line(plain_text("one")),
        PresentationNode::Exits(vec![]),
        PresentationNode::RoomName("B".to_string()),
        PresentationNode::Line(plain_text("two")),
    ];
    let kinds = vec![PresentationKind::RoomName, PresentationKind::Exits];
    let once = coalesce(nodes.clone(), &kinds);
    assert_eq!(
        once,
        vec![
            PresentationNode::Line(plain_text("one")),
            PresentationNode::Exits(vec![]),
            PresentationNode::RoomName("B".to_string()),
            PresentationNode::Line(plain_text("two")),
        ]
    );
    assert_eq!(coalesce(once.clone(), &kinds), once);
    assert_eq!(coalesce(nodes.clone(), &[]), nodes);
}
