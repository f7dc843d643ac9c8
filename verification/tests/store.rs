use snakewood::fabric::Trigger;
use snakewood::store::layout;
use snakewood::{
    CommitId, Direction, EntityId, Flag, IntentClass, MemoryStore, Mob, Operator, Outcome, Realm,
    Room, Rule, Scope, SortedMap, SortedSet, World, WorldStore,
};

fn id(s: &str) -> EntityId {
    EntityId::new(s).unwrap()
}

fn clearing() -> Room {
    let mut exits = SortedMap::new();
    exits.insert(Direction::North, id("snakewood/old-well"));
    Room {
        id: id("snakewood/clearing"),
        name: "Snakewood Clearing".to_string(),
        description: "A clearing.".to_string(),
        exits,
    }
}

fn old_well() -> Room {
    Room {
        id: id("snakewood/old-well"),
        name: "The Old Well".to_string(),
        description: "A crumbling stone well.".to_string(),
        exits: SortedMap::new(),
    }
}

fn goblin() -> Mob {
    let mut flags = SortedSet::new();
    flags.insert(Flag::Alive);
    Mob {
        id: id("snakewood/mob/goblin#1"),
        name: "a goblin".to_string(),
        location: id("snakewood/clearing"),
        flags,
        responders: Vec::new(),
    }
}

fn sample_realm() -> Realm {
    let mut world = World::default();
    world.insert_room(clearing());
    world.insert_room(old_well());
    let mut realm = Realm::new(world);
    realm.insert_mob(goblin());
    realm.rules.push(Rule {
        on: Trigger::AnyMove,
        require: Vec::new(),
        effects: Vec::new(),
        outcome: Outcome::Allow,
        priority: 7,
    });
    realm.operators.push(Operator::RateLimit {
        on: IntentClass::Move,
        per_ticks: 4,
        scope: Scope::PerActor,
        deny: Some("Slow down.".to_string()),
    });
    realm
}

#[test]
fn saves_and_loads_a_room() {
    let mut store = MemoryStore::new();
    let room = clearing();
    store.save_room(&room).unwrap();
    let world = store.load_all().unwrap();
    assert_eq!(world.room(&room.id), Some(&room));
}

#[test]
fn records_commit_messages_in_order() {
    let mut store = MemoryStore::new();
    store.commit("first", 1000).unwrap();
    store.commit("second", 2000).unwrap();
    assert_eq!(store.commit_log(), vec!["first".to_string(), "second".to_string()]);
}

#[test]
fn commits_are_numbered_from_zero() {
    let mut store = MemoryStore::default();
    for n in 0..12 {
        let CommitId(name) = store.commit("again", n).unwrap();
        assert_eq!(name, format!("mem-{n}"));
    }
}

#[test]
fn saves_loads_and_removes_mobs() {
    let mut store = MemoryStore::new();
    let mob = goblin();
    store.save_mob(&mob).unwrap();
    assert_eq!(store.load_mobs().unwrap(), vec![mob.clone()]);
    store.remove_mob(&mob.id).unwrap();
    assert!(store.load_mobs().unwrap().is_empty());
    // removing an absent mob is a no-op
    store.remove_mob(&mob.id).unwrap();
}

#[test]
fn load_realm_composes_rooms_mobs_rules() {
    let mut store = MemoryStore::new();
    store.save_room(&clearing()).unwrap();
    store
        .save_mob(&Mob {
            id: EntityId::new("snakewood/mob/goblin#1").unwrap(),
            name: "a goblin".to_string(),
            location: EntityId::new("snakewood/clearing").unwrap(),
            flags: SortedSet::new(),
            responders: Vec::new(),
        })
        .unwrap();
    let realm = store.load_realm().unwrap();
    assert!(realm.world.room(&EntityId::new("snakewood/clearing").unwrap()).is_some());
    assert!(realm.mob(&EntityId::new("snakewood/mob/goblin#1").unwrap()).is_some());
    // no_exit_message defaulted via Realm::new
    assert_eq!(realm.no_exit_message, "You see no exit in that direction.");
}

#[test]
fn a_saved_realm_is_given_back() {
    let realm = sample_realm();
    let mut store = MemoryStore::new();
    store.save_realm(&realm).unwrap();
    store.commit("initial realm", 1_700_000_000).unwrap();
    let back = store.load_realm().unwrap();
    assert_eq!(back.world, realm.world);
    assert_eq!(back.mobs, realm.mobs);
    assert_eq!(back.rules, realm.rules);
    assert_eq!(back.operators, realm.operators);
    assert_eq!(back.no_exit_message, realm.no_exit_message);
}

#[test]
fn saving_a_realm_forgets_mobs_that_left_it() {
    let mut realm = sample_realm();
    let mut store = MemoryStore::new();
    store.save_realm(&realm).unwrap();
    realm.mobs.remove(&id("snakewood/mob/goblin#1"));
    let mut imp = goblin();
    imp.id = id("snakewood/mob/imp#1");
    realm.insert_mob(imp.clone());
    store.save_realm(&realm).unwrap();
    assert_eq!(store.load_mobs().unwrap(), vec![imp]);
    // Saving again changes nothing.
    store.save_realm(&realm).unwrap();
    assert_eq!(store.load_realm().unwrap().mobs, realm.mobs);
}

#[test]
fn rooms_only_the_store_has_are_kept() {
    let mut store = MemoryStore::new();
    store.save_room(&old_well()).unwrap();
    let mut world = World::default();
    world.insert_room(clearing());
    store.save_realm(&Realm::new(world)).unwrap();
    let back = store.load_all().unwrap();
    assert_eq!(back.rooms.len(), 2);
    assert_eq!(back.room(&id("snakewood/old-well")), Some(&old_well()));
}

#[test]
fn mobs_are_loaded_by_increasing_id() {
    let mut store = MemoryStore::new();
    for name in ["snakewood/mob/c", "snakewood/mob/a", "snakewood/mob/b"] {
        let mut mob = goblin();
        mob.id = id(name);
        store.save_mob(&mob).unwrap();
    }
    let ids: Vec<String> =
        store.load_mobs().unwrap().iter().map(|m| m.id.as_str().to_string()).collect();
    assert_eq!(ids, vec!["snakewood/mob/a", "snakewood/mob/b", "snakewood/mob/c"]);
}

#[test]
fn files_are_laid_out_by_zone() {
    assert_eq!(
        layout::room_file(&id("snakewood/clearing")),
        "world/snakewood/rooms/clearing.ron"
    );
    assert_eq!(
        layout::mob_file(&id("snakewood/mob/goblin#1")),
        "state/snakewood/mobs/mob/goblin#1.ron"
    );
    assert_eq!(layout::rules_file(), "world/rules.ron");
    assert_eq!(layout::operators_file(), "world/operators.ron");
}

#[test]
fn ron_files_among_rooms_hold_rooms() {
    assert!(layout::is_room_file("world/snakewood/rooms/clearing.ron"));
    assert!(layout::is_room_file("world/snakewood/rooms/cave/mouth.ron"));
    assert!(layout::is_room_file("world/rooms/rooms/rooms.ron"));
    assert!(!layout::is_room_file("world/rules.ron"));
    assert!(!layout::is_room_file("world/operators.ron"));
    assert!(!layout::is_room_file("world/snakewood/clearing.ron"));
    // Directly in a directory of that name, a room lies anywhere below `world`.
    assert!(layout::is_room_file("world/rooms/x.ron"));
    assert!(layout::is_room_file("world/a/b/rooms/x.ron"));
    assert!(!layout::is_room_file("world/rooms/a/x.ron"));
    assert!(!layout::is_room_file("world/a/b/rooms/c/x.ron"));
    assert!(!layout::is_room_file("world/a/bedrooms/x.ron"));
    assert!(!layout::is_room_file("rooms/x.ron"));
    assert!(!layout::is_room_file("world/rooms/.ron"));
    assert!(!layout::is_room_file("world/snakewood/rooms"));
    assert!(!layout::is_room_file("world/snakewood/rooms/clearing.txt"));
    assert!(!layout::is_room_file("world/snakewood/rooms/cave/.ron"));
    assert!(!layout::is_room_file("state/snakewood/rooms/clearing.ron"));
    assert!(!layout::is_room_file("clearing.ron"));
    assert!(!layout::is_room_file(""));
    assert!(!layout::is_ron_file("state/a/mobs/.ron"));
    assert!(!layout::is_ron_file(".ron"));
    assert!(layout::is_ron_file("..ron"));
    assert!(!layout::is_ron_file("ron"));
    assert!(!layout::is_ron_file("a.ron2"));
}

#[test]
fn sorting_mobs_is_stable() {
    let named = |mob_id: &str, name: &str| {
        let mut mob = goblin();
        mob.id = id(mob_id);
        mob.name = name.to_string();
        mob
    };
    let sorted = layout::sort_mobs(vec![
        named("a/c", "one"),
        named("a/b", "two"),
        named("a/c", "three"),
        named("a/a", "four"),
        named("a/b", "five"),
    ]);
    let names: Vec<&str> = sorted.iter().map(|m| m.name.as_str()).collect();
    assert_eq!(names, vec!["four", "two", "five", "one", "three"]);
}

#[test]
fn every_saved_room_is_found_again() {
    for room in ["snakewood/clearing", "snakewood/cave/mouth", "a/b/c/d", "rooms/rooms"] {
        assert!(layout::is_room_file(&layout::room_file(&id(room))), "{room}");
        assert!(!layout::is_room_file(&layout::mob_file(&id(room))), "{room}");
    }
}
