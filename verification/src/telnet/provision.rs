//! Bringing players into the world and out of it.

use vstd::prelude::*;

use crate::engine::model::EngineView;
use crate::engine::Engine;
use crate::id::{self, EntityId};
use crate::mob::{Flag, Mob, MobView};
use crate::realm::RealmView;
use crate::session::SessionId;
use crate::sorted_set::SortedSet;
use crate::text;

verus! {

/// The id of the anonymous player with this number.
pub open spec fn anon_id(n: nat) -> text::Text {
    "player/anon-"@ + text::decimal(n)
}

/// The name of the anonymous player with this number.
pub open spec fn anon_name(n: nat) -> text::Text {
    "Player"@ + text::decimal(n)
}

/// A newly arrived player: alive, conscious, and without handlers.
pub open spec fn newcomer(id: text::Text, name: text::Text, location: text::Text) -> MobView {
    MobView {
        id,
        name,
        location,
        flags: Set::empty().insert(Flag::Alive).insert(Flag::Conscious),
        responders: seq![],
    }
}

impl EngineView {
    /// After an anonymous player arrived in `room`.
    pub open spec fn spawned(self, room: text::Text) -> EngineView {
        let actor = anon_id(self.next_anon as nat);
        let player = newcomer(actor, anon_name(self.next_anon as nat), room);
        self.minted().with_realm(self.realm.with_mob(player)).connected(actor)
    }

    /// After a session was attached to the named `actor`, who appears in `room`
    /// if there is no such mob yet.
    pub open spec fn attached(self, actor: text::Text, room: text::Text) -> EngineView {
        let there = if self.realm.mobs.contains_key(actor) {
            self
        } else {
            self.with_realm(self.realm.with_mob(newcomer(actor, id::name_of(actor), room)))
        };
        there.connected_as(actor)
    }

    /// After a player's session was closed and the player left the world.
    pub open spec fn despawned(self, session: u64, actor: text::Text) -> EngineView {
        self.disconnected(session).with_realm(self.realm.without_mob(actor))
    }

    /// After a session was ended, if it was there: an actor who outlives it stays,
    /// any other leaves the world with it.
    pub open spec fn ended(self, session: u64) -> EngineView {
        match self.actor_of(session) {
            Some(actor) => if self.persists(session) {
                self.disconnected(session)
            } else {
                self.despawned(session, actor)
            },
            None => self,
        }
    }
}

/// The id of an anonymous player is an identifier.
pub proof fn lemma_anon_id_is_valid(n: nat)
    ensures
        id::valid_id(anon_id(n)),
{
    reveal_strlit("player/anon-");
    text::lemma_decimal_nonempty(n);
    let t = anon_id(n);
    let d = text::decimal(n);
    assert(t.len() == 12 + d.len());
    assert(t[0] == 'p');
    assert(t.last() == d[d.len() - 1]);
    assert(t[6] == '/');
    assert forall|i: int| 0 <= i < t.len() implies id::is_id_char(#[trigger] t[i]) by {
        if i < 12 {
            assert(t[i] == "player/anon-"@[i]);
        } else {
            assert(t[i] == d[i - 12]);
        }
    }
}

fn awake() -> (r: SortedSet<Flag>)
    ensures
        r@ == Set::empty().insert(Flag::Alive).insert(Flag::Conscious),
{
    let mut flags: SortedSet<Flag> = SortedSet::new();
    flags.insert(Flag::Alive);
    flags.insert(Flag::Conscious);
    flags
}

/// Spawn an anonymous player mob at `start_room` and connect a session to it.
///
/// The anonymous id is minted from the engine's global counter, so it is
/// unique across every transport (telnet, structured API) sharing this
/// engine: no two sessions can ever collide on the same `player/anon-N` id.
pub fn spawn_player(engine: &mut Engine, start_room: &EntityId) -> (r: (SessionId, EntityId))
    requires
        old(engine)@.next_anon < u64::MAX,
        old(engine)@.next_session < u64::MAX,
    ensures
        r.0@ == old(engine)@.next_session,
        r.1@ == anon_id(old(engine)@.next_anon as nat),
        !old(engine)@.sessions.contains_key(r.0@),
        final(engine)@ == old(engine)@.spawned(start_room@),
{
    let seq = engine.mint_anon_seq();
    let number = text::number_text(seq);
    let id_text = text::join_two("player/anon-", number.as_str());
    proof {
        lemma_anon_id_is_valid(seq as nat);
    }
    let actor = EntityId::new(id_text.as_str()).unwrap();
    let mob = Mob {
        id: actor.clone(),
        name: text::join_two("Player", number.as_str()),
        location: start_room.clone(),
        flags: awake(),
        responders: Vec::new(),
    };
    assert(mob@.responders =~= seq![]);
    engine.realm_mut().insert_mob(mob);
    let sid = engine.connect(actor.clone());
    (sid, actor)
}

/// Attach a session to a persistent named actor, creating its mob at
/// `start_room` if it doesn't exist yet. Unlike `spawn_player`, the mob is NOT
/// removed when the session ends.
pub fn attach_named(engine: &mut Engine, actor_id: &EntityId, start_room: &EntityId) -> (r:
    SessionId)
    requires
        old(engine)@.next_session < u64::MAX,
    ensures
        r@ == old(engine)@.next_session,
        !old(engine)@.sessions.contains_key(r@),
        final(engine)@ == old(engine)@.attached(actor_id@, start_room@),
{
    if engine.realm().mob(actor_id).is_none() {
        let mob = Mob {
            id: actor_id.clone(),
            name: actor_id.name().to_string(),
            location: start_room.clone(),
            flags: awake(),
            responders: Vec::new(),
        };
        assert(mob@.responders =~= seq![]);
        engine.realm_mut().insert_mob(mob);
    }
    engine.connect_as(actor_id.clone())
}

/// Disconnect a player's session and remove its mob from the world.
pub fn despawn_player(engine: &mut Engine, sid: SessionId, actor: &EntityId)
    ensures
        final(engine)@ == old(engine)@.despawned(sid@, actor@),
{
    let _ = engine.disconnect(sid);
    let _ = engine.realm_mut().mobs.remove(actor);
}

/// End a session, if it is there. A named actor only loses the session; an
/// anonymous player is despawned.
pub fn end_session(engine: &mut Engine, sid: SessionId)
    ensures
        final(engine)@ == old(engine)@.ended(sid@),
{
    let actor = match engine.session_actor(sid) {
        Some(actor) => actor.clone(),
        None => return,
    };
    if engine.persists(sid) {
        let _ = engine.disconnect(sid);
    } else {
        despawn_player(engine, sid, &actor);
    }
}

// ---------------------------------------------------------------------------
// Laws
// ---------------------------------------------------------------------------

/// No two numbers make the same anonymous id.
pub proof fn lemma_anon_ids_never_collide(m: nat, n: nat)
    requires
        m != n,
    ensures
        anon_id(m) != anon_id(n),
{
    if anon_id(m) == anon_id(n) {
        let k = "player/anon-"@.len() as int;
        assert(anon_id(m).skip(k) =~= text::decimal(m));
        assert(anon_id(n).skip(k) =~= text::decimal(n));
        text::lemma_decimal_injective(m, n);
    }
}

/// Two players that arrive one after the other have different ids and different
/// sessions, whatever rooms they arrive in.
pub proof fn lemma_spawned_players_are_distinct(e: EngineView, room: text::Text)
    requires
        e.next_anon < u64::MAX,
        e.next_session < u64::MAX,
    ensures
        anon_id(e.spawned(room).next_anon as nat) != anon_id(e.next_anon as nat),
        e.spawned(room).next_session != e.next_session,
{
    lemma_anon_ids_never_collide(e.spawned(room).next_anon as nat, e.next_anon as nat);
}

/// A spawned player is where it was put, and its session is bound to it.
pub proof fn lemma_spawn_places_and_binds(e: EngineView, room: text::Text)
    ensures
        ({
            let after = e.spawned(room);
            let actor = anon_id(e.next_anon as nat);
            &&& after.actor_of(e.next_session) == Some(actor)
            &&& after.realm.location(actor) == Some(room)
        }),
{
}

/// A player who comes and goes leaves the world and the sessions as they were.
pub proof fn lemma_spawn_then_despawn_restores(e: EngineView, room: text::Text)
    requires
        e.orderly(),
        e.next_session < u64::MAX,
        !e.realm.mobs.contains_key(anon_id(e.next_anon as nat)),
    ensures
        ({
            let after = e.spawned(room).despawned(e.next_session, anon_id(e.next_anon as nat));
            &&& after.realm == e.realm
            &&& after.sessions == e.sessions
        }),
{
    let actor = anon_id(e.next_anon as nat);
    let after = e.spawned(room).despawned(e.next_session, actor);
    assert(after.realm.mobs =~= e.realm.mobs);
    assert(after.sessions =~= e.sessions);
}

/// After a despawn the session has no actor and the mob is gone.
pub proof fn lemma_despawn_removes_both(e: EngineView, session: u64, actor: text::Text)
    ensures
        e.despawned(session, actor).actor_of(session) is None,
        e.despawned(session, actor).realm.location(actor) is None,
{
}

/// Attaching to an actor who is already there reuses the mob as it is; attaching
/// again gives another session.
pub proof fn lemma_attach_reuses_the_mob(
    e: EngineView,
    actor: text::Text,
    room: text::Text,
    elsewhere: text::Text,
)
    requires
        e.next_session < u64::MAX - 1,
    ensures
        ({
            let once = e.attached(actor, room);
            let twice = once.attached(actor, elsewhere);
            &&& twice.realm == once.realm
            &&& once.next_session != e.next_session
            &&& twice.actor_of(e.next_session) == Some(actor)
            &&& twice.actor_of(once.next_session) == Some(actor)
        }),
{
}

/// Ending the session of a named actor ends the session and nothing else: the
/// actor's mob stays where it is, and attaching again finds it there.
pub proof fn lemma_named_actor_outlives_its_session(
    e: EngineView,
    actor: text::Text,
    room: text::Text,
    session: u64,
)
    requires
        e.persists(session),
        e.actor_of(session) == Some(actor),
    ensures
        e.ended(session).actor_of(session) is None,
        e.ended(session).realm == e.realm,
        e.realm.mobs.contains_key(actor) ==> e.ended(session).attached(actor, room).realm
            == e.realm,
{
}

/// A session attached to a named actor is one that the actor outlives; a spawned
/// player's is not.
pub proof fn lemma_only_named_actors_persist(e: EngineView, actor: text::Text, room: text::Text)
    ensures
        e.attached(actor, room).persists(e.next_session),
        e.attached(actor, room).realm.mobs.contains_key(actor),
        !e.spawned(room).persists(e.next_session),
{
}

/// Whether the mob is a newly arrived player: with this id and name, in this room,
/// alive and conscious, and without handlers.
pub open spec fn is_newcomer(m: MobView, id: text::Text, name: text::Text, room: text::Text) -> bool {
    &&& m.id == id
    &&& m.name == name
    &&& m.location == room
    &&& m.flags.contains(Flag::Alive)
    &&& m.flags.contains(Flag::Conscious)
    &&& m.responders.len() == 0
}

/// Spawning puts one new player, named by the next number, into the room, binds a new
/// session to it with nothing pending, and does nothing else.
pub proof fn lemma_what_spawning_does(e: EngineView, room: text::Text)
    requires
        e.next_anon < u64::MAX,
        e.next_session < u64::MAX,
    ensures
        ({
            let after = e.spawned(room);
            let id = "player/anon-"@ + text::decimal(e.next_anon as nat);
            let name = "Player"@ + text::decimal(e.next_anon as nat);
            let s = after.sessions[e.next_session];
            &&& after.realm == RealmView {
                mobs: e.realm.mobs.insert(id, after.realm.mobs[id]),
                ..e.realm
            }
            &&& is_newcomer(after.realm.mobs[id], id, name, room)
            &&& after.sessions == e.sessions.insert(e.next_session, s)
            &&& s.actor == id
            &&& s.outbox.len() == 0
            &&& !s.persistent
            &&& after == EngineView {
                realm: after.realm,
                sessions: after.sessions,
                next_session: (e.next_session + 1) as u64,
                next_anon: (e.next_anon + 1) as u64,
                ..e
            }
        }),
{
}

/// Attaching puts a named actor into the room if the realm does not have them, and
/// leaves them alone if it does; either way a new session is bound to them that they
/// outlive, with nothing pending, and nothing else changes.
pub proof fn lemma_what_attaching_does(e: EngineView, actor: text::Text, room: text::Text)
    requires
        e.next_session < u64::MAX,
    ensures
        ({
            let after = e.attached(actor, room);
            let s = after.sessions[e.next_session];
            &&& e.realm.mobs.contains_key(actor) ==> after.realm == e.realm
            &&& !e.realm.mobs.contains_key(actor) ==> after.realm == RealmView {
                mobs: e.realm.mobs.insert(actor, after.realm.mobs[actor]),
                ..e.realm
            } && is_newcomer(after.realm.mobs[actor], actor, id::name_of(actor), room)
            &&& after.sessions == e.sessions.insert(e.next_session, s)
            &&& s.actor == actor
            &&& s.outbox.len() == 0
            &&& s.persistent
            &&& after == EngineView {
                realm: after.realm,
                sessions: after.sessions,
                next_session: (e.next_session + 1) as u64,
                ..e
            }
        }),
{
}

/// Ending a session closes it, and takes its actor out of the world unless the actor
/// outlives it. Nothing else changes, and nothing at all where there is no such session.
pub proof fn lemma_what_ending_does(e: EngineView, session: u64, actor: text::Text)
    ensures
        ({
            let s = e.sessions[session];
            let closed = e.sessions.remove(session);
            &&& !e.sessions.contains_key(session) ==> e.ended(session) == e
            &&& e.sessions.contains_key(session) && s.persistent ==> e.ended(session)
                == EngineView { sessions: closed, ..e }
            &&& e.sessions.contains_key(session) && !s.persistent ==> e.ended(session)
                == EngineView {
                sessions: closed,
                realm: RealmView { mobs: e.realm.mobs.remove(s.actor), ..e.realm },
                ..e
            }
            &&& e.despawned(session, actor) == EngineView {
                sessions: closed,
                realm: RealmView { mobs: e.realm.mobs.remove(actor), ..e.realm },
                ..e
            }
        }),
{
}

} // verus!
