//! Lines of player input.

use vstd::prelude::*;

use crate::direction::Direction;
use crate::fabric::intent::{Intent, IntentView};
use crate::id::EntityId;
use crate::text;

verus! {

/// The word that a line holds: trimmed, in small letters.
pub open spec fn word(line: text::Text) -> text::Text {
    text::lowered(text::trimmed(line))
}

/// The direction that a word names, in full or by its first letter.
pub open spec fn direction_named(w: text::Text) -> Option<Direction> {
    if w == "n"@ || w == "north"@ {
        Some(Direction::North)
    } else if w == "s"@ || w == "south"@ {
        Some(Direction::South)
    } else if w == "e"@ || w == "east"@ {
        Some(Direction::East)
    } else if w == "w"@ || w == "west"@ {
        Some(Direction::West)
    } else if w == "u"@ || w == "up"@ {
        Some(Direction::Up)
    } else if w == "d"@ || w == "down"@ {
        Some(Direction::Down)
    } else {
        None
    }
}

/// What a line of input proposes for `actor`.
pub open spec fn parsed(line: text::Text, actor: text::Text) -> Option<IntentView> {
    match direction_named(word(line)) {
        Some(direction) => Some(IntentView::Move { actor, direction }),
        None => if word(line) == "look"@ || word(line) == "l"@ {
            Some(IntentView::Look { actor })
        } else {
            None
        },
    }
}

/// Whether a line asks to disconnect.
pub open spec fn quits(line: text::Text) -> bool {
    word(line) == "quit"@ || word(line) == "q"@ || word(line) == "exit"@
}

/// The direction that a line names, in full or by its first letter.
pub fn direction_in(line: &str) -> (r: Option<Direction>)
    ensures
        r == direction_named(word(line@)),
{
    let w = text::word_of(line);
    if text::chars_are(&w, "n") || text::chars_are(&w, "north") {
        Some(Direction::North)
    } else if text::chars_are(&w, "s") || text::chars_are(&w, "south") {
        Some(Direction::South)
    } else if text::chars_are(&w, "e") || text::chars_are(&w, "east") {
        Some(Direction::East)
    } else if text::chars_are(&w, "w") || text::chars_are(&w, "west") {
        Some(Direction::West)
    } else if text::chars_are(&w, "u") || text::chars_are(&w, "up") {
        Some(Direction::Up)
    } else if text::chars_are(&w, "d") || text::chars_are(&w, "down") {
        Some(Direction::Down)
    } else {
        None
    }
}

/// Parse one line of player input into an intent for `actor`.
/// Returns `None` for empty input or an unrecognized command.
pub fn parse(line: &str, actor: &EntityId) -> (r: Option<Intent>)
    ensures
        text::opt_view(r) == parsed(line@, actor@),
{
    if let Some(direction) = direction_in(line) {
        return Some(Intent::Move { actor: actor.clone(), direction });
    }
    let w = text::word_of(line);
    if text::chars_are(&w, "look") || text::chars_are(&w, "l") {
        Some(Intent::Look { actor: actor.clone() })
    } else {
        None
    }
}

/// Whether a line is a request to disconnect (a transport concern, not an Intent).
pub fn is_quit(line: &str) -> (r: bool)
    ensures
        r == quits(line@),
{
    let w = text::word_of(line);
    text::chars_are(&w, "quit") || text::chars_are(&w, "q") || text::chars_are(&w, "exit")
}

// ---------------------------------------------------------------------------
// Laws
// ---------------------------------------------------------------------------

/// A request to disconnect is never a command.
pub proof fn lemma_quit_is_no_command(line: text::Text, actor: text::Text)
    requires
        quits(line),
    ensures
        parsed(line, actor) is None,
{
    reveal_strlit("n");
    reveal_strlit("north");
    reveal_strlit("s");
    reveal_strlit("south");
    reveal_strlit("e");
    reveal_strlit("east");
    reveal_strlit("w");
    reveal_strlit("west");
    reveal_strlit("u");
    reveal_strlit("up");
    reveal_strlit("d");
    reveal_strlit("down");
    reveal_strlit("look");
    reveal_strlit("l");
    reveal_strlit("quit");
    reveal_strlit("q");
    reveal_strlit("exit");
    let w = word(line);
    assert(w.len() > 0);
    assert(w[0] == 'q' || w[0] == 'e');
    if w[0] == 'e' {
        assert(w[1] == 'x');
    }
}

/// A blank line is neither a command nor a request to disconnect.
pub proof fn lemma_blank_is_nothing(line: text::Text, actor: text::Text)
    requires
        text::trimmed(line).len() == 0,
    ensures
        parsed(line, actor) is None,
        !quits(line),
{
    reveal_strlit("n");
    reveal_strlit("north");
    reveal_strlit("s");
    reveal_strlit("south");
    reveal_strlit("e");
    reveal_strlit("east");
    reveal_strlit("w");
    reveal_strlit("west");
    reveal_strlit("u");
    reveal_strlit("up");
    reveal_strlit("d");
    reveal_strlit("down");
    reveal_strlit("look");
    reveal_strlit("l");
    reveal_strlit("quit");
    reveal_strlit("q");
    reveal_strlit("exit");
    assert(word(line).len() == 0);
}

/// A line acts for the actor it was read for, and for nobody else.
pub proof fn lemma_commands_act_for_their_actor(line: text::Text, actor: text::Text)
    ensures
        parsed(line, actor) matches Some(intent) ==> intent.actor() == actor,
{
}

/// Whether a command calls for a direction, by its name or the first letter of it, in
/// small letters or capitals.
pub open spec fn calls_for(command: text::Text, d: Direction) -> bool {
    match d {
        Direction::North => text::spells(command, "north"@) || text::spells(command, "n"@),
        Direction::South => text::spells(command, "south"@) || text::spells(command, "s"@),
        Direction::East => text::spells(command, "east"@) || text::spells(command, "e"@),
        Direction::West => text::spells(command, "west"@) || text::spells(command, "w"@),
        Direction::Up => text::spells(command, "up"@) || text::spells(command, "u"@),
        Direction::Down => text::spells(command, "down"@) || text::spells(command, "d"@),
    }
}

/// A command means the same however it is padded with white space and whichever of its
/// letters are capitals. A direction's name or its first letter moves in that direction,
/// `look` or `l` looks, `quit`, `q` or `exit` asks to disconnect, and nothing else is
/// understood.
pub proof fn lemma_the_vocabulary(
    front: text::Text,
    command: text::Text,
    back: text::Text,
    actor: text::Text,
)
    requires
        text::all_blank(front),
        text::all_blank(back),
        text::is_bare(command),
    ensures
        ({
            let line = front + command + back;
            &&& forall|direction: Direction| #[trigger]
                calls_for(command, direction) <==> parsed(line, actor) == Some(
                    IntentView::Move { actor, direction },
                )
            &&& text::spells(command, "look"@) || text::spells(command, "l"@) <==> parsed(
                line,
                actor,
            ) == Some(IntentView::Look { actor })
            &&& (forall|direction: Direction| !calls_for(command, direction)) && !text::spells(
                command,
                "look"@,
            ) && !text::spells(command, "l"@) <==> parsed(line, actor) is None
            &&& text::spells(command, "quit"@) || text::spells(command, "q"@) || text::spells(
                command,
                "exit"@,
            ) <==> quits(line)
        }),
{
    reveal_strlit("n");
    reveal_strlit("north");
    reveal_strlit("s");
    reveal_strlit("south");
    reveal_strlit("e");
    reveal_strlit("east");
    reveal_strlit("w");
    reveal_strlit("west");
    reveal_strlit("u");
    reveal_strlit("up");
    reveal_strlit("d");
    reveal_strlit("down");
    reveal_strlit("look");
    reveal_strlit("l");
    reveal_strlit("quit");
    reveal_strlit("q");
    reveal_strlit("exit");
    let line = front + command + back;
    text::lemma_trimming_takes_the_white_space_off(front, command, back);
    let w = text::lowered(command);
    assert(word(line) == w);
    text::lemma_lowering_spells(command, "n"@);
    text::lemma_lowering_spells(command, "north"@);
    text::lemma_lowering_spells(command, "s"@);
    text::lemma_lowering_spells(command, "south"@);
    text::lemma_lowering_spells(command, "e"@);
    text::lemma_lowering_spells(command, "east"@);
    text::lemma_lowering_spells(command, "w"@);
    text::lemma_lowering_spells(command, "west"@);
    text::lemma_lowering_spells(command, "u"@);
    text::lemma_lowering_spells(command, "up"@);
    text::lemma_lowering_spells(command, "d"@);
    text::lemma_lowering_spells(command, "down"@);
    text::lemma_lowering_spells(command, "look"@);
    text::lemma_lowering_spells(command, "l"@);
    text::lemma_lowering_spells(command, "quit"@);
    text::lemma_lowering_spells(command, "q"@);
    text::lemma_lowering_spells(command, "exit"@);
    lemma_one_direction_each(w);
    assert forall|direction: Direction| #[trigger] calls_for(command, direction) <==> direction_named(
        w,
    ) == Some(direction) by {}
    match direction_named(w) {
        Some(d) => {
            assert(calls_for(command, d));
        },
        None => {},
    }
}

/// No word names two directions, nor both a direction and a look.
proof fn lemma_one_direction_each(w: text::Text)
    ensures
        direction_named(w) == Some(Direction::North) <==> w == "n"@ || w == "north"@,
        direction_named(w) == Some(Direction::South) <==> w == "s"@ || w == "south"@,
        direction_named(w) == Some(Direction::East) <==> w == "e"@ || w == "east"@,
        direction_named(w) == Some(Direction::West) <==> w == "w"@ || w == "west"@,
        direction_named(w) == Some(Direction::Up) <==> w == "u"@ || w == "up"@,
        direction_named(w) == Some(Direction::Down) <==> w == "d"@ || w == "down"@,
        w == "look"@ || w == "l"@ ==> direction_named(w) is None,
{
    reveal_strlit("n");
    reveal_strlit("north");
    reveal_strlit("s");
    reveal_strlit("south");
    reveal_strlit("e");
    reveal_strlit("east");
    reveal_strlit("w");
    reveal_strlit("west");
    reveal_strlit("u");
    reveal_strlit("up");
    reveal_strlit("d");
    reveal_strlit("down");
    reveal_strlit("look");
    reveal_strlit("l");
    reveal_strlit("quit");
    reveal_strlit("q");
    reveal_strlit("exit");
    if w.len() > 0 {
        assert("n"@[0] == 'n' && "north"@[0] == 'n' && "s"@[0] == 's' && "south"@[0] == 's');
        assert("e"@[0] == 'e' && "east"@[0] == 'e' && "w"@[0] == 'w' && "west"@[0] == 'w');
        assert("u"@[0] == 'u' && "up"@[0] == 'u' && "d"@[0] == 'd' && "down"@[0] == 'd');
        assert("look"@[0] == 'l' && "l"@[0] == 'l');
    }
}

} // verus!
