//! What a telnet connection does with the engine, apart from reading and
//! writing.

use vstd::prelude::*;

use crate::direction::Direction;
use crate::engine::model::EngineView;
use crate::engine::Engine;
use crate::fabric::intent::{Intent, IntentView};
use crate::id::EntityId;
use crate::session::SessionId;
use crate::telnet::parse::{self, is_quit, parse};
use crate::telnet::provision::{self, spawn_player};
use crate::telnet::render::{self, render, RenderStyle};
use crate::text;

verus! {

/// What a connection does after a line of input.
#[derive(Debug, PartialEq)]
pub enum LineReply {
    /// Disconnect.
    Quit,
    /// Send this text at once.
    Say(String),
    /// Go on; what comes of the line is delivered after the next drain.
    Nothing,
}

pub enum LineReplyView {
    Quit,
    Say(text::Text),
    Nothing,
}

impl View for LineReply {
    type V = LineReplyView;

    open spec fn view(&self) -> LineReplyView {
        match self {
            LineReply::Quit => LineReplyView::Quit,
            LineReply::Say(t) => LineReplyView::Say(t@),
            LineReply::Nothing => LineReplyView::Nothing,
        }
    }
}

/// How a line is answered: a request to disconnect ends the connection, a
/// command is answered later, a blank line not at all, anything else at once.
pub open spec fn line_reply(line: text::Text, actor: text::Text) -> LineReplyView {
    if parse::quits(line) {
        LineReplyView::Quit
    } else if parse::parsed(line, actor) is Some || text::trimmed(line).len() == 0 {
        LineReplyView::Nothing
    } else {
        LineReplyView::Say("What?\r\n"@)
    }
}

impl EngineView {
    /// After a line of input: a command is enqueued, nothing else changes
    /// anything.
    pub open spec fn after_line(
        self,
        session: u64,
        actor: text::Text,
        line: text::Text,
    ) -> EngineView {
        match parse::parsed(line, actor) {
            Some(intent) => self.enqueued(session, intent),
            None => self,
        }
    }

    /// After a new player was greeted: spawned, with a look enqueued.
    pub open spec fn greeted(self, room: text::Text) -> EngineView {
        self.spawned(room).enqueued(
            self.next_session,
            IntentView::Look { actor: provision::anon_id(self.next_anon as nat) },
        )
    }
}

/// Spawn a player for a new connection and greet it with a look, delivered after
/// the next drain.
pub fn greet(engine: &mut Engine, start_room: &EntityId) -> (r: (SessionId, EntityId))
    requires
        old(engine)@.next_anon < u64::MAX,
        old(engine)@.next_session < u64::MAX,
    ensures
        r.0@ == old(engine)@.next_session,
        r.1@ == provision::anon_id(old(engine)@.next_anon as nat),
        !old(engine)@.sessions.contains_key(r.0@),
        final(engine)@ == old(engine)@.greeted(start_room@),
{
    let (sid, actor) = spawn_player(engine, start_room);
    engine.enqueue(sid, Intent::Look { actor: actor.clone() });
    (sid, actor)
}

/// Handle one line of input.
pub fn handle_line(engine: &mut Engine, sid: SessionId, actor: &EntityId, line: &str) -> (r:
    LineReply)
    ensures
        r@ == line_reply(line@, actor@),
        final(engine)@ == old(engine)@.after_line(sid@, actor@, line@),
{
    if is_quit(line) {
        proof {
            parse::lemma_quit_is_no_command(line@, actor@);
        }
        return LineReply::Quit;
    }
    // Unknown verbs never form an intent, so answer immediately.
    match parse(line, actor) {
        Some(intent) => {
            engine.enqueue(sid, intent);
            LineReply::Nothing
        },
        None => if text::is_blank(line) {
            LineReply::Nothing
        } else {
            LineReply::Say("What?\r\n".to_string())
        },
    }
}

/// Take what is pending for a session, as wire text.
pub fn flush(engine: &mut Engine, sid: SessionId, style: RenderStyle) -> (r: String)
    ensures
        r@ == render::wire(old(engine)@.pending(sid@), style),
        final(engine)@ == old(engine)@.polled(sid@),
{
    let nodes = engine.poll(sid);
    render(nodes.as_slice(), style)
}

// ---------------------------------------------------------------------------
// Laws
// ---------------------------------------------------------------------------

/// A line that is answered at once, or asks to disconnect, or is blank, never
/// reaches the fabric.
pub proof fn lemma_only_commands_reach_the_fabric(
    e: EngineView,
    session: u64,
    actor: text::Text,
    line: text::Text,
)
    requires
        !(line_reply(line, actor) is Nothing) || text::trimmed(line).len() == 0,
    ensures
        e.after_line(session, actor, line) == e,
{
    if parse::quits(line) {
        parse::lemma_quit_is_no_command(line, actor);
    }
    if text::trimmed(line).len() == 0 {
        parse::lemma_blank_is_nothing(line, actor);
    }
}

/// A greeted player's look waits for the next drain.
pub proof fn lemma_greeting_waits_for_the_drain(e: EngineView, room: text::Text)
    requires
        e.next_session < u64::MAX,
    ensures
        e.greeted(room).queue == e.queue.push(
            (
                e.next_session,
                IntentView::Look { actor: provision::anon_id(e.next_anon as nat) },
            ),
        ),
        e.greeted(room).pending(e.next_session).len() == 0,
{
}

/// How a line is answered, however it is padded and whichever of its letters are
/// capitals. A request to disconnect is granted; a command of the session's actor goes
/// to the end of the queue and is answered later; a blank line is passed over; and to
/// anything else the answer is `What?`. Only a command changes anything.
pub proof fn lemma_what_a_line_does(
    e: EngineView,
    session: u64,
    front: text::Text,
    command: text::Text,
    back: text::Text,
    direction: Direction,
)
    requires
        text::all_blank(front),
        text::all_blank(back),
        text::is_bare(command),
        e.sessions.contains_key(session),
    ensures
        ({
            let line = front + command + back;
            let actor = e.sessions[session].actor;
            let reply = line_reply(line, actor);
            let after = e.after_line(session, actor, line);
            let quit = text::spells(command, "quit"@) || text::spells(command, "q"@)
                || text::spells(command, "exit"@);
            let look = text::spells(command, "look"@) || text::spells(command, "l"@);
            &&& reply is Quit <==> quit
            &&& quit ==> after == e
            &&& parse::calls_for(command, direction) ==> reply is Nothing && after == (EngineView {
                queue: e.queue.push((session, IntentView::Move { actor, direction })),
                ..e
            })
            &&& look ==> reply is Nothing && after == (EngineView {
                queue: e.queue.push((session, IntentView::Look { actor })),
                ..e
            })
            &&& command.len() == 0 ==> reply is Nothing && after == e
            &&& !quit && !look && command.len() > 0 && (forall|d: Direction|
                !parse::calls_for(command, d)) ==> reply == LineReplyView::Say("What?\r\n"@) && after
                == e
        }),
{
    let line = front + command + back;
    let actor = e.sessions[session].actor;
    parse::lemma_the_vocabulary(front, command, back, actor);
    text::lemma_trimming_takes_the_white_space_off(front, command, back);
    if parse::quits(line) {
        parse::lemma_quit_is_no_command(line, actor);
    }
    if command.len() == 0 {
        parse::lemma_blank_is_nothing(line, actor);
    }
    assert(parse::calls_for(command, direction) <==> parse::parsed(line, actor) == Some(
        IntentView::Move { actor, direction },
    ));
}

/// Greeting is spawning, and then a look of the new player at the end of the queue.
pub proof fn lemma_what_greeting_does(e: EngineView, room: text::Text)
    requires
        e.next_session < u64::MAX,
        e.next_anon < u64::MAX,
    ensures
        ({
            let spawned = e.spawned(room);
            let actor = "player/anon-"@ + text::decimal(e.next_anon as nat);
            e.greeted(room) == (EngineView {
                queue: e.queue.push((e.next_session, IntentView::Look { actor })),
                ..spawned
            })
        }),
{
}

} // verus!
