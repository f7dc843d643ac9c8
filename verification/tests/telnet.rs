use snakewood::telnet::{
    attach_named, despawn_player, end_session, flush, greet, handle_line, is_quit, parse, render, spawn_player,
    style_for, LineReply, RenderStyle,
};
use snakewood::{
    plain_text, Direction, Engine, EntityId, Intent, ManualClock, PresentationNode, Realm, Room,
    SortedMap, Span, World,
};

fn actor() -> EntityId {
    EntityId::new("player/anon-0").unwrap()
}

fn start() -> EntityId {
    EntityId::new("snakewood/clearing").unwrap()
}

fn empty_engine() -> Engine {
    Engine::new(Realm::new(World::default()), Box::new(ManualClock::new(0)))
}

fn two_room_engine() -> Engine {
    let mut exits = SortedMap::new();
    exits.insert(Direction::North, EntityId::new("snakewood/old-well").unwrap());
    let mut world = World::default();
    world.insert_room(Room {
        id: start(),
        name: "Snakewood Clearing".to_string(),
        description: "A clearing.".to_string(),
        exits,
    });
    world.insert_room(Room {
        id: EntityId::new("snakewood/old-well").unwrap(),
        name: "The Old Well".to_string(),
        description: "A well.".to_string(),
        exits: SortedMap::new(),
    });
    Engine::new(Realm::new(world), Box::new(ManualClock::new(0)))
}

// --- input ----------------------------------------------------------------------

#[test]
fn parses_movement_words_and_abbreviations() {
    assert_eq!(
        parse("north", &actor()),
        Some(Intent::Move { actor: actor(), direction: Direction::North })
    );
    assert_eq!(
        parse("N", &actor()),
        Some(Intent::Move { actor: actor(), direction: Direction::North })
    );
    assert_eq!(
        parse("  d  ", &actor()),
        Some(Intent::Move { actor: actor(), direction: Direction::Down })
    );
}

#[test]
fn parses_look() {
    assert_eq!(parse("look", &actor()), Some(Intent::Look { actor: actor() }));
    assert_eq!(parse("l", &actor()), Some(Intent::Look { actor: actor() }));
}

#[test]
fn empty_and_unknown_are_none() {
    assert_eq!(parse("", &actor()), None);
    assert_eq!(parse("   ", &actor()), None);
    assert_eq!(parse("fluffernuts", &actor()), None);
}

#[test]
fn quit_detection() {
    assert!(is_quit("quit"));
    assert!(is_quit(" Q "));
    assert!(is_quit("exit"));
    assert!(!is_quit("look"));
}

#[test]
fn every_word_is_understood_in_any_case() {
    let words = [
        ("n", "NORTH", Direction::North),
        ("s", "South", Direction::South),
        ("e", "eAsT", Direction::East),
        ("w", "\twest\r\n", Direction::West),
        ("u", "up\u{a0}", Direction::Up),
        ("d", "\u{2003}Down", Direction::Down),
    ];
    for (short, long, direction) in words {
        let want = Some(Intent::Move { actor: actor(), direction });
        assert_eq!(parse(short, &actor()), want);
        assert_eq!(parse(long, &actor()), want);
    }
    assert_eq!(parse("LOOK", &actor()), Some(Intent::Look { actor: actor() }));
    // Only ASCII letters have their case ignored.
    assert_eq!(parse("\u{212a}", &actor()), None);
    assert_eq!(parse("north east", &actor()), None);
}

#[test]
fn quitting_is_never_a_command() {
    for line in ["quit", "Q", " exit "] {
        assert!(is_quit(line));
        assert_eq!(parse(line, &actor()), None);
    }
}

// --- output ---------------------------------------------------------------------

#[test]
fn renders_room_view() {
    let nodes = vec![
        PresentationNode::RoomName("Snakewood Clearing".to_string()),
        PresentationNode::RoomDescription(plain_text("A clearing.")),
        PresentationNode::Exits(vec![Direction::North, Direction::Down]),
        PresentationNode::Occupants(vec![Span::actor("a goblin")]),
    ];
    let text = render(&nodes, RenderStyle::Plain);
    assert_eq!(
        text,
        "Snakewood Clearing\r\nA clearing.\r\nExits: north, down\r\nAlso here: a goblin\r\n"
    );
}

#[test]
fn empty_occupants_line_is_omitted() {
    let nodes = vec![PresentationNode::Occupants(vec![])];
    assert_eq!(render(&nodes, RenderStyle::Plain), "");
}

#[test]
fn no_exits_says_none() {
    let nodes = vec![PresentationNode::Exits(vec![])];
    assert_eq!(render(&nodes, RenderStyle::Plain), "Exits: none\r\n");
}

#[test]
fn renders_denied_and_line() {
    let nodes = vec![
        PresentationNode::Denied(plain_text("You see no exit in that direction.")),
        PresentationNode::Line(plain_text("The goblin blocks your way north.")),
    ];
    assert_eq!(
        render(&nodes, RenderStyle::Plain),
        "You see no exit in that direction.\r\nThe goblin blocks your way north.\r\n"
    );
}

#[test]
fn plain_mode_is_unstyled() {
    let nodes = vec![
        PresentationNode::RoomName("Snakewood Clearing".to_string()),
        PresentationNode::Occupants(vec![Span::actor("a goblin")]),
    ];
    let text = render(&nodes, RenderStyle::Plain);
    assert_eq!(text, "Snakewood Clearing\r\nAlso here: a goblin\r\n");
    assert!(!text.contains('\x1b'), "plain mode must emit no escape codes");
}

#[test]
fn ansi_mode_styles_roomname_bold_and_actor_cyan() {
    let nodes = vec![
        PresentationNode::RoomName("Snakewood Clearing".to_string()),
        PresentationNode::Occupants(vec![Span::actor("a goblin")]),
        PresentationNode::Denied(plain_text("Nope.")),
    ];
    let text = render(&nodes, RenderStyle::Ansi);
    // RoomName is bold; the literal text survives between codes.
    assert!(text.contains("\x1b[1mSnakewood Clearing\x1b[0m"));
    // Actor span is cyan.
    assert!(text.contains("\x1b[36ma goblin\x1b[0m"));
    // Denied line is red.
    assert!(text.contains("\x1b[31mNope.\x1b[0m"));
    // Substring of the raw words still present (so e2e substring matches survive).
    assert!(text.contains("Snakewood Clearing"));
}

#[test]
fn every_node_has_its_exact_wire_text() {
    let nodes = vec![
        PresentationNode::RoomDescription(vec![Span::plain("You see "), Span::actor("amy")]),
        PresentationNode::Exits(vec![
            Direction::North,
            Direction::South,
            Direction::East,
            Direction::West,
            Direction::Up,
            Direction::Down,
        ]),
        PresentationNode::Occupants(vec![Span::actor("amy"), Span::plain("zoe")]),
        PresentationNode::Denied(vec![Span::plain("Not "), Span::actor("you")]),
        PresentationNode::Line(vec![]),
        PresentationNode::Prompt,
    ];
    assert_eq!(
        render(&nodes, RenderStyle::Plain),
        "You see amy\r\nExits: north, south, east, west, up, down\r\nAlso here: amy, zoe\r\n\
         Not you\r\n\r\n>\r\n"
    );
    assert_eq!(
        render(&nodes, RenderStyle::Ansi),
        "You see \x1b[36mamy\x1b[0m\r\n\
         \x1b[2mExits: north, south, east, west, up, down\x1b[0m\r\n\
         Also here: \x1b[36mamy\x1b[0m, zoe\r\n\
         \x1b[31mNot you\x1b[0m\r\n\r\n\x1b[2m>\x1b[0m\r\n"
    );
}

#[test]
fn batches_render_one_after_the_other() {
    let a = vec![PresentationNode::RoomName("A".to_string())];
    let b = vec![PresentationNode::Prompt, PresentationNode::Exits(vec![])];
    let both: Vec<PresentationNode> = a.iter().chain(b.iter()).cloned().collect();
    for style in [RenderStyle::Plain, RenderStyle::Ansi] {
        let whole = render(&both, style);
        assert_eq!(whole, format!("{}{}", render(&a, style), render(&b, style)));
        assert!(whole.ends_with("\r\n"));
    }
}

#[test]
fn escape_codes_are_used_unless_switched_off() {
    assert_eq!(style_for(None), RenderStyle::Ansi);
    assert_eq!(style_for(Some("1")), RenderStyle::Ansi);
    assert_eq!(style_for(Some("OFF")), RenderStyle::Ansi);
    for off in ["0", "false", "off"] {
        assert_eq!(style_for(Some(off)), RenderStyle::Plain);
    }
}

// --- players --------------------------------------------------------------------

#[test]
fn spawn_places_player_and_binds_session() {
    let mut engine = empty_engine();
    let start = EntityId::new("snakewood/clearing").unwrap();
    let (sid, actor) = spawn_player(&mut engine, &start);
    assert_eq!(actor.as_str(), "player/anon-0");
    assert_eq!(engine.session_actor(sid), Some(&actor));
    assert_eq!(
        engine.realm().mob_location(&actor).map(|r| r.as_str()),
        Some("snakewood/clearing")
    );
}

#[test]
fn spawned_players_are_awake_and_named() {
    let mut engine = empty_engine();
    let mut last = actor();
    for _ in 0..11 {
        last = spawn_player(&mut engine, &start()).1;
    }
    assert_eq!(last.as_str(), "player/anon-10");
    let mob = engine.realm().mob(&last).unwrap();
    assert_eq!(mob.name, "Player10");
    assert!(mob.has_flag(snakewood::Flag::Alive));
    assert!(mob.has_flag(snakewood::Flag::Conscious));
    assert!(mob.responders.is_empty());
}

#[test]
fn despawn_removes_session_and_mob() {
    let mut engine = empty_engine();
    let start = EntityId::new("snakewood/clearing").unwrap();
    let (sid, actor) = spawn_player(&mut engine, &start);
    despawn_player(&mut engine, sid, &actor);
    assert_eq!(engine.session_actor(sid), None);
    assert!(engine.realm().mob(&actor).is_none());
}

#[test]
fn attach_named_creates_then_reuses() {
    let mut engine = empty_engine();
    let start = EntityId::new("snakewood/clearing").unwrap();
    let builder = EntityId::new("player/mcp-builder").unwrap();
    let s1 = attach_named(&mut engine, &builder, &start);
    assert_eq!(engine.session_actor(s1), Some(&builder));
    assert_eq!(
        engine.realm().mob_location(&builder).map(|r| r.as_str()),
        Some("snakewood/clearing")
    );
    // A second attach reuses the SAME mob (not recreated) and binds a new session.
    let s2 = attach_named(
        &mut engine,
        &builder,
        &EntityId::new("snakewood/elsewhere").unwrap(),
    );
    assert_ne!(s1, s2);
    // location unchanged: the mob was reused, not moved/recreated.
    assert_eq!(
        engine.realm().mob_location(&builder).map(|r| r.as_str()),
        Some("snakewood/clearing")
    );
}

#[test]
fn spawn_player_ids_are_globally_unique_across_calls() {
    // The anon-id counter lives on the engine, so repeated calls (representing
    // different transports/connections) never mint the same id.
    let mut engine = empty_engine();
    let start = EntityId::new("snakewood/clearing").unwrap();
    let (_sid1, actor1) = spawn_player(&mut engine, &start);
    let (_sid2, actor2) = spawn_player(&mut engine, &start);
    assert_eq!(actor1.as_str(), "player/anon-0");
    assert_eq!(actor2.as_str(), "player/anon-1");
    assert_ne!(actor1, actor2);
}

#[test]
fn a_named_actor_outlives_its_session() {
    let mut engine = empty_engine();
    let builder = EntityId::new("player/mcp-builder").unwrap();
    let sid = attach_named(&mut engine, &builder, &start());
    engine.disconnect(sid);
    assert_eq!(engine.realm().mob(&builder).unwrap().name, "mcp-builder");
}

// --- connections ----------------------------------------------------------------

#[test]
fn a_connection_looks_walks_and_wonders() {
    let mut engine = two_room_engine();
    let (sid, actor) = greet(&mut engine, &start());
    // The greeting waits for the drain.
    assert_eq!(flush(&mut engine, sid, RenderStyle::Plain), "");
    engine.tick();
    assert_eq!(
        flush(&mut engine, sid, RenderStyle::Plain),
        "Snakewood Clearing\r\nA clearing.\r\nExits: north\r\n"
    );
    // Walk north -> arrive at the Old Well.
    assert_eq!(handle_line(&mut engine, sid, &actor, "n\r"), LineReply::Nothing);
    engine.tick();
    assert_eq!(
        flush(&mut engine, sid, RenderStyle::Plain),
        "The Old Well\r\nA well.\r\nExits: none\r\n"
    );
    // Unknown command -> What?
    assert_eq!(
        handle_line(&mut engine, sid, &actor, "fluffernuts"),
        LineReply::Say("What?\r\n".to_string())
    );
    assert_eq!(handle_line(&mut engine, sid, &actor, "  "), LineReply::Nothing);
    engine.tick();
    assert_eq!(flush(&mut engine, sid, RenderStyle::Plain), "");
    assert_eq!(handle_line(&mut engine, sid, &actor, "quit"), LineReply::Quit);
}

#[test]
fn a_player_who_comes_and_goes_leaves_no_trace() {
    let mut engine = two_room_engine();
    let before = engine.realm().mobs.clone();
    let (sid, actor) = greet(&mut engine, &start());
    despawn_player(&mut engine, sid, &actor);
    assert_eq!(engine.realm().mobs, before);
    // The look of the greeting finds nobody.
    engine.tick();
    assert!(engine.sessions_with_pending().is_empty());
}

/// `text` with the escape codes taken out.
fn without_codes(text: &str) -> String {
    let mut out = String::new();
    let mut inside = false;
    for c in text.chars() {
        if inside {
            inside = c != 'm';
        } else if c == '\x1b' {
            inside = true;
        } else {
            out.push(c);
        }
    }
    out
}

#[test]
fn styling_only_adds_escape_codes() {
    let spans = || vec![Span::plain("mm [3"), Span::actor("Mim"), Span::plain("")];
    let nodes = vec![
        PresentationNode::RoomName("m".to_string()),
        PresentationNode::RoomDescription(spans()),
        PresentationNode::Exits(vec![Direction::North, Direction::Up]),
        PresentationNode::Exits(vec![]),
        PresentationNode::Occupants(spans()),
        PresentationNode::Occupants(vec![]),
        PresentationNode::Line(spans()),
        PresentationNode::Denied(spans()),
        PresentationNode::Prompt,
    ];
    let styled = render(&nodes, RenderStyle::Ansi);
    let plain = render(&nodes, RenderStyle::Plain);
    assert_ne!(styled, plain);
    assert_eq!(without_codes(&styled), plain);
}

#[test]
fn ending_a_session_takes_only_anonymous_players_away() {
    let mut engine = empty_engine();
    let (player, anon) = spawn_player(&mut engine, &start());
    let builder = EntityId::new("player/mcp-builder").unwrap();
    let named = attach_named(&mut engine, &builder, &start());
    end_session(&mut engine, player);
    end_session(&mut engine, named);
    end_session(&mut engine, named);
    assert_eq!(engine.session_actor(player), None);
    assert_eq!(engine.session_actor(named), None);
    assert!(engine.realm().mob(&anon).is_none());
    assert!(engine.realm().mob(&builder).is_some());
}
