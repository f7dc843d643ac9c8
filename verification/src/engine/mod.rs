//! The synchronous core: the world, the clock and the sessions.

use vstd::prelude::*;

use crate::clock::Clock;
use crate::direction::Direction;
use crate::fabric::dispatch::dispatch;
use crate::fabric::intent::Intent;
use crate::fabric::operator::{IntentClass, Operator, PresentationKind};
use crate::fabric::rate_limit::{Admission, RateLimiterState};
use crate::id::EntityId;
use crate::presentation::{plain_text, PresentationNode};
use crate::realm::Realm;
use crate::session::{Session, SessionId, SessionView};
use crate::sorted_map::{self, Ordered, SortedMap};
use crate::store::{self, StoreError, WorldStore};
use crate::text;
use crate::world::Room;

pub mod delivery;
pub mod laws;
pub mod model;
pub mod roster;
pub mod turns;

use model::{EngineView, StoreView};
use roster::Roster;

verus! {

/// Why a `dig` failed.
#[derive(Debug, PartialEq)]
pub enum DigError {
    NoSession,
    NoLocation,
    InvalidId(String),
    RoomExists,
    Store(StoreError),
}

/// The synchronous core of the daemon: owns the world, the clock, and sessions.
pub struct Engine {
    realm: Realm,
    clock: Held<Box<dyn Clock>>,
    roster: Roster,
    next_anon: u64,
    tick: u64,
    store: Option<Box<dyn WorldStore>>,
    snapshot_interval: Option<i64>,
    last_snapshot: i64,
    intent_queue: Vec<(SessionId, Intent)>,
    rate_limiter: RateLimiterState,
    drain_count: u64,
}

/// Holds a value as it is.
struct Held<T> {
    inner: T,
}

impl View for Engine {
    type V = EngineView;

    closed spec fn view(&self) -> EngineView {
        EngineView {
            realm: self.realm@,
            time: |t: i64| self.clock.inner.reads(t),
            sessions: self.roster@.sessions,
            next_session: self.roster@.next,
            next_anon: self.next_anon,
            tick: self.tick,
            store: match self.store {
                Some(store) => Some(
                    StoreView {
                        contents: store.contents(),
                        faithful: store.faithful(),
                        unfailing: store.unfailing(),
                        state: store.state(),
                        conduct: store.conduct(),
                    },
                ),
                None => None,
            },
            snapshot_interval: self.snapshot_interval,
            last_snapshot: self.last_snapshot,
            queue: text::views(self.intent_queue@),
            limiter: self.rate_limiter@,
            drain_count: self.drain_count,
        }
    }
}

impl Engine {
    pub fn new(realm: Realm, clock: Box<dyn Clock>) -> (r: Engine)
        ensures
            forall|t: i64| #[trigger] (r@.time)(t) == clock.reads(t),
            r@ == EngineView::fresh(realm@, r@.time),
    {
        let clock = Held { inner: clock };
        Engine::around(realm, clock)
    }

    fn around(realm: Realm, clock: Held<Box<dyn Clock>>) -> (r: Engine)
        ensures
            r.clock == clock,
            r@ == EngineView::fresh(realm@, r@.time),
    {
        let r = Engine {
            realm,
            clock,
            roster: Roster::new(),
            next_anon: 0,
            tick: 0,
            store: None,
            snapshot_interval: None,
            last_snapshot: 0,
            intent_queue: Vec::new(),
            rate_limiter: RateLimiterState::default(),
            drain_count: 0,
        };
        assert(r@.queue =~= seq![]);
        r
    }

    /// Whether there are session ids and anonymous numbers left to give out.
    pub fn can_connect(&self) -> (r: bool)
        ensures
            r == (self@.next_session < u64::MAX && self@.next_anon < u64::MAX),
            self@.orderly(),
    {
        self.can_attach() && self.next_anon < u64::MAX
    }

    /// Whether there are session ids left to give out.
    pub fn can_attach(&self) -> (r: bool)
        ensures
            r == (self@.next_session < u64::MAX),
            self@.orderly(),
    {
        self.roster.next() < u64::MAX
    }

    /// Whether there are ticks left to count.
    pub fn can_tick(&self) -> (r: bool)
        ensures
            r == (self@.tick < u64::MAX && self@.drain_count < u64::MAX),
    {
        self.tick < u64::MAX && self.drain_count < u64::MAX
    }

    /// Register a new session bound to `actor`; returns its id, which no session
    /// has.
    pub fn connect(&mut self, actor: EntityId) -> (r: SessionId)
        requires
            old(self)@.next_session < u64::MAX,
        ensures
            r@ == old(self)@.next_session,
            !old(self)@.sessions.contains_key(r@),
            final(self)@ == old(self)@.connected(actor@),
            old(self)@.orderly(),
            final(self)@.orderly(),
    {
        self.roster.open(Session::new(actor))
    }

    /// Register a new session bound to `actor`, who outlives it; returns its id,
    /// which no session has.
    pub fn connect_as(&mut self, actor: EntityId) -> (r: SessionId)
        requires
            old(self)@.next_session < u64::MAX,
        ensures
            r@ == old(self)@.next_session,
            !old(self)@.sessions.contains_key(r@),
            final(self)@ == old(self)@.connected_as(actor@),
            old(self)@.orderly(),
            final(self)@.orderly(),
    {
        self.roster.open(Session::lasting(actor))
    }

    /// Whether a session is there, with an actor who outlives it.
    pub fn persists(&self, id: SessionId) -> (r: bool)
        ensures
            r == self@.persists(id@),
    {
        match self.roster.sessions().get(&id) {
            Some(session) => session.persistent,
            None => false,
        }
    }

    /// Remove a session, returning it if present.
    pub fn disconnect(&mut self, id: SessionId) -> (r: Option<Session>)
        ensures
            final(self)@ == old(self)@.disconnected(id@),
            match r {
                Some(s) => old(self)@.sessions.contains_key(id@) && s@ == old(self)@.sessions[id@],
                None => !old(self)@.sessions.contains_key(id@),
            },
    {
        self.roster.close(id)
    }

    /// Mint the next globally-unique anonymous-player sequence number.
    ///
    /// Shared across all transports (telnet, structured API) so two
    /// concurrently-connecting anonymous players never collide on the same
    /// `player/anon-N` id.
    pub fn mint_anon_seq(&mut self) -> (r: u64)
        requires
            old(self)@.next_anon < u64::MAX,
        ensures
            r == old(self)@.next_anon,
            final(self)@ == old(self)@.minted(),
    {
        let n = self.next_anon;
        self.next_anon = self.next_anon + 1;
        n
    }

    /// The actor that a session drives.
    pub fn session_actor(&self, id: SessionId) -> (r: Option<&EntityId>)
        ensures
            text::opt_view(r) == self@.actor_of(id@),
    {
        match self.roster.sessions().get(&id) {
            Some(session) => Some(&session.actor),
            None => None,
        }
    }

    pub fn realm(&self) -> (r: &Realm)
        ensures
            r@ == self@.realm,
    {
        &self.realm
    }

    pub fn realm_mut(&mut self) -> (r: &mut Realm)
        ensures
            (*r)@ == old(self)@.realm,
            final(self)@ == old(self)@.with_realm((*final(r))@),
    {
        &mut self.realm
    }

    /// Whether the session may propose the intent.
    fn authorized(&self, id: SessionId, intent: &Intent) -> (r: bool)
        ensures
            r == self@.authorized(id@, intent@),
    {
        match self.roster.sessions().get(&id) {
            Some(session) => session.actor.is_same(intent.actor()),
            None => false,
        }
    }

    /// Dispatch `intent` and fan the resulting presentation out to sessions.
    ///
    /// No-op unless `id` is a live session AND the intent acts as that session's
    /// own actor: a session may only drive the actor it is bound to. This is the
    /// authorization seam the transports (telnet, MCP) rely on.
    pub fn submit(&mut self, id: SessionId, intent: Intent)
        ensures
            final(self)@ == old(self)@.submitted(id@, intent@),
    {
        if !self.authorized(id, &intent) {
            return ;
        }
        let result = dispatch(&mut self.realm, intent);
        let kinds: Vec<PresentationKind> = Vec::new();
        self.roster.hand_out(&result.messages, &kinds);
        assert(kinds@ =~= seq![]);
    }

    /// Authorize and buffer an intent for the next tick's drain. Like `submit`,
    /// a session may only enqueue intents for the actor it is bound to.
    pub fn enqueue(&mut self, id: SessionId, intent: Intent)
        ensures
            final(self)@ == old(self)@.enqueued(id@, intent@),
    {
        if !self.authorized(id, &intent) {
            return ;
        }
        self.intent_queue.push((id, intent));
        proof {
            assert(self.intent_queue@.last()@ == (id@, intent@));
            assert(text::views(self.intent_queue@) =~= text::views(old(self).intent_queue@).push(
                (id@, intent@),
            ));
        }
    }

    /// How many times the intent queue has been drained (one per `tick`).
    pub fn drain_count(&self) -> (r: u64)
        ensures
            r == self@.drain_count,
    {
        self.drain_count
    }

    /// Sessions whose outbox currently holds undelivered presentation.
    pub fn sessions_with_pending(&self) -> (r: Vec<SessionId>)
        ensures
            text::views(r@) == sorted_map::in_order::<SessionId, SessionView>(
                self@.sessions,
            ).filter(|id: u64| self@.pending(id).len() > 0),
            forall|id: u64| #[trigger]
                text::views(r@).contains(id) <==> self@.sessions.contains_key(id)
                    && self@.sessions[id].outbox.len() > 0,
            forall|i: int, j: int| 0 <= i < j < r@.len() ==> (#[trigger] r@[i]).0 < (
            #[trigger] r@[j]).0,
    {
        let sessions = self.roster.sessions();
        let n = sessions.len();
        let ghost keys = sorted_map::in_order::<SessionId, SessionView>(sessions@);
        let ghost p = |id: u64| self@.pending(id).len() > 0;
        let mut out: Vec<SessionId> = Vec::new();
        proof {
            crate::seqs::lemma_filter_empty(keys.take(0), p);
            assert(text::views(out@) =~= keys.take(0).filter(p));
        }
        for i in 0..n
            invariant
                n == keys.len(),
                sessions@ == self@.sessions,
                keys == sorted_map::in_order::<SessionId, SessionView>(sessions@),
                p == (|id: u64| self@.pending(id).len() > 0),
                text::views(out@) == keys.take(i as int).filter(p),
        {
            proof {
                assert(keys.take(i + 1) =~= keys.take(i as int).push(keys[i as int]));
                crate::seqs::lemma_filter_push(keys.take(i as int), p, keys[i as int]);
            }
            if sessions.value_at(i).outbox.len() > 0 {
                let ghost before = text::views(out@);
                out.push(*sessions.key_at(i));
                assert(text::views(out@) =~= before.push(keys[i as int]));
            }
        }
        assert(keys.take(n as int) =~= keys);
        proof {
            let picked = keys.filter(p);
            assert forall|id: u64| #[trigger] picked.contains(id) <==> self@.sessions.contains_key(id)
                && self@.sessions[id].outbox.len() > 0 by {
                crate::seqs::lemma_filter_contains(keys, p, id);
                assert(keys.contains(id) <==> sessions@.contains_key(id));
            }
            sorted_map::lemma_filter_increases::<SessionId>(keys, p);
            assert forall|i: int, j: int| 0 <= i < j < out@.len() implies (#[trigger] out@[i]).0 < (
            #[trigger] out@[j]).0 by {
                assert(SessionId::before(picked[i], picked[j]));
            }
        }
        out
    }

    /// Drain a session's pending presentation.
    pub fn poll(&mut self, id: SessionId) -> (r: Vec<PresentationNode>)
        ensures
            text::views(r@) == old(self)@.pending(id@),
            final(self)@ == old(self)@.polled(id@),
    {
        self.roster.take_pending(id)
    }

    /// Advance the logical tick counter by one; returns the new count.
    pub fn tick(&mut self) -> (r: u64)
        requires
            old(self)@.tick < u64::MAX,
            old(self)@.drain_count < u64::MAX,
        ensures
            r == old(self)@.tick + 1,
            final(self)@ == old(self)@.ticked(),
    {
        self.tick = self.tick + 1;
        self.drain();
        self.tick
    }

    /// The kinds any Coalesce operator targets (all Coalesce operators together).
    fn coalesced_kinds(&self) -> (r: Vec<PresentationKind>)
        ensures
            r@ == model::collapsing(self@.realm.operators),
            forall|kind: PresentationKind| #[trigger]
                r@.contains(kind) <==> turns::listed(self@.realm.operators, kind),
    {
        let ops = &self.realm.operators;
        let ghost all = text::views(ops@);
        let mut kinds: Vec<PresentationKind> = Vec::new();
        assert(kinds@ =~= model::collapsing(all.take(0)));
        for i in 0..ops.len()
            invariant
                all == text::views(ops@),
                kinds@ == model::collapsing(all.take(i as int)),
        {
            let ghost start = kinds@;
            assert(all.take(i + 1).drop_last() =~= all.take(i as int));
            assert(all.take(i + 1).last() == all[i as int]);
            match &ops[i] {
                Operator::Coalesce { on, .. } => {
                    assert(start =~= start + on@.take(0));
                    for j in 0..on.len()
                        invariant
                            kinds@ == start + on@.take(j as int),
                    {
                        kinds.push(on[j]);
                        assert(kinds@ =~= start + on@.take(j + 1));
                    }
                    assert(on@.take(on@.len() as int) =~= on@);
                },
                Operator::RateLimit { .. } => {
                    assert(start + model::kinds_of(all[i as int]) =~= start);
                },
            }
        }
        assert(all.take(ops@.len() as int) =~= all);
        proof {
            assert forall|kind: PresentationKind| #[trigger]
                kinds@.contains(kind) <==> turns::listed(all, kind) by {
                turns::lemma_which_kinds_collapse(all, kind);
            }
        }
        kinds
    }

    /// Gate one intent through the RateLimit operators; dispatch it or answer
    /// with a refusal.
    fn work(&mut self, intent: Intent, batched: &mut Vec<(EntityId, PresentationNode)>)
        ensures
            ({
                let before = model::Progress {
                    realm: old(self)@.realm,
                    limiter: old(self)@.limiter,
                    batch: text::views(old(batched)@),
                };
                let after = before.worked(intent@, old(self)@.tick as int);
                &&& final(self)@ == EngineView {
                    realm: after.realm,
                    limiter: after.limiter,
                    ..old(self)@
                }
                &&& text::views(final(batched)@) == after.batch
            }),
    {
        let ghost start = text::views(batched@);
        let actor = intent.actor().clone();
        let class = IntentClass::of(&intent);
        match self.rate_limiter.admission(
            self.realm.operators.as_slice(),
            class,
            &actor,
            self.tick,
        ) {
            Admission::Admit => {
                let result = dispatch(&mut self.realm, intent);
                let ghost said = text::views(result.messages@);
                let mut messages = result.messages;
                batched.append(&mut messages);
                assert(text::views(batched@) =~= start + said);
            },
            Admission::Drop { deny } => {
                let t = match deny {
                    Some(t) => t,
                    None => self.realm.rate_limit_message.clone(),
                };
                batched.push((actor, PresentationNode::Denied(plain_text(t.as_str()))));
                assert(batched@.last()@ == (actor@, crate::presentation::plain_denial(t@)));
                assert(text::views(batched@) =~= start.push(batched@.last()@));
            },
        }
    }

    /// Drain the intent queue for the current tick: gate each intent through
    /// RateLimit operators, dispatch the admitted ones, coalesce the resulting
    /// directed presentation per recipient, and flush to session outboxes.
    fn drain(&mut self)
        requires
            old(self)@.drain_count < u64::MAX,
        ensures
            final(self)@ == old(self)@.drained(),
    {
        let mut queue: Vec<(SessionId, Intent)> = Vec::new();
        std::mem::swap(&mut queue, &mut self.intent_queue);
        assert(text::views(self.intent_queue@) =~= seq![]);
        let ghost all = text::views(queue@);
        let ghost start = self@;
        let ghost from = model::Progress {
            realm: start.realm,
            limiter: start.limiter,
            batch: seq![],
        };
        let mut batched: Vec<(EntityId, PresentationNode)> = Vec::new();
        assert(text::views(batched@) =~= seq![]);
        for i in 0..queue.len()
            invariant
                all == text::views(queue@),
                from == (model::Progress {
                    realm: start.realm,
                    limiter: start.limiter,
                    batch: seq![],
                }),
                ({
                    let done = from.worked_off(all.take(i as int), start.tick as int);
                    &&& self@ == EngineView {
                        realm: done.realm,
                        limiter: done.limiter,
                        ..start
                    }
                    &&& text::views(batched@) == done.batch
                }),
        {
            proof {
                assert(all.take(i + 1).drop_last() =~= all.take(i as int));
                assert(all.take(i + 1).last() == queue@[i as int]@);
            }
            self.work(queue[i].1.clone(), &mut batched);
        }
        assert(all.take(queue@.len() as int) =~= all);
        let kinds = self.coalesced_kinds();
        self.roster.hand_out(&batched, &kinds);
        self.drain_count = self.drain_count + 1;
    }

    pub fn tick_count(&self) -> (r: u64)
        ensures
            r == self@.tick,
    {
        self.tick
    }

    /// Current injected time in Unix seconds.
    pub fn now_unix(&self) -> (t: i64)
        ensures
            (self@.time)(t),
    {
        self.clock.inner.now_unix()
    }

    /// Attach a store for persistence and reset the snapshot clock to now.
    pub fn attach_store(&mut self, store: Box<dyn WorldStore>)
        ensures
            (old(self)@.time)(final(self)@.last_snapshot),
            final(self)@ == old(self)@.with_store(
                (StoreView {
                    contents: store.contents(),
                    faithful: store.faithful(),
                    unfailing: store.unfailing(),
                    state: store.state(),
                    conduct: store.conduct(),
                }),
                final(self)@.last_snapshot,
            ),
    {
        let store = Some(store);
        self.last_snapshot = self.clock.inner.now_unix();
        self.store = store;
    }

    /// Boot an engine by loading the entire realm from `store`. Where the load
    /// fails, its error comes back; else the engine has what was loaded, and the
    /// store as it was.
    pub fn boot(store: Box<dyn WorldStore>, clock: Box<dyn Clock>) -> (r: Result<
        Engine,
        StoreError,
    >)
        ensures
            store::loading(
                store.conduct(),
                store.state(),
                match r {
                    Ok(engine) => Ok(engine@.realm),
                    Err(e) => Err(e),
                },
            ),
            store.unfailing() ==> r is Ok,
            r matches Ok(engine) ==> {
                &&& forall|t: i64| #[trigger] (engine@.time)(t) == clock.reads(t)
                &&& clock.reads(engine@.last_snapshot)
                &&& store.faithful() ==> engine@.realm == store.contents().realm()
                &&& engine@ == (EngineView {
                    store: Some(
                        StoreView {
                            contents: store.contents(),
                            faithful: store.faithful(),
                            unfailing: store.unfailing(),
                            state: store.state(),
                            conduct: store.conduct(),
                        },
                    ),
                    last_snapshot: engine@.last_snapshot,
                    ..EngineView::fresh(engine@.realm, engine@.time)
                })
            },
    {
        let realm = match store.load_realm() {
            Ok(realm) => realm,
            Err(e) => {
                return Err(e);
            },
        };
        let clock = Held { inner: clock };
        let store = Some(store);
        let mut engine = Engine::around(realm, clock);
        engine.last_snapshot = engine.clock.inner.now_unix();
        engine.store = store;
        Ok(engine)
    }

    pub fn has_store(&self) -> (r: bool)
        ensures
            r == self@.store is Some,
    {
        self.store.is_some()
    }

    /// Have the store save and commit the realm, if there is a store.
    fn persist(&mut self, message: &str, now: i64) -> (r: Result<(), StoreError>)
        ensures
            old(self)@.persisted(final(self)@, message@, now, store::failure(r)),
    {
        match &mut self.store {
            Some(store) => {
                let ghost conduct = store.conduct();
                let ghost from = store.state();
                let saved = store.save_realm(&self.realm);
                let ghost mid = store.state();
                match saved {
                    Ok(()) => {},
                    Err(e) => {
                        proof {
                            store::lemma_saving_and_committing_is_keeping(
                                conduct,
                                from,
                                self.realm@,
                                mid,
                                store::failure(saved),
                                message@,
                                now,
                                mid,
                                Err(e),
                            );
                        }
                        return Err(e);
                    },
                }
                let committed = store.commit(message, now);
                proof {
                    store::lemma_saving_and_committing_is_keeping(
                        conduct,
                        from,
                        self.realm@,
                        mid,
                        store::failure(saved),
                        message@,
                        now,
                        store.state(),
                        committed,
                    );
                }
                match committed {
                    Ok(_) => Ok(()),
                    Err(e) => Err(e),
                }
            },
            None => Ok(()),
        }
    }

    /// Persist the whole realm and commit it immediately (on-checkpoint; also
    /// used by authored on-change ops). No-op without a store.
    pub fn checkpoint(&mut self, message: &str) -> (r: Result<(), StoreError>)
        ensures
            exists|now: i64|
                #[trigger] (old(self)@.time)(now) && old(self)@.persisted(
                    final(self)@,
                    message@,
                    now,
                    store::failure(r),
                ),
    {
        let now = self.clock.inner.now_unix();
        assert((old(self)@.time)(now));
        self.persist(message, now)
    }

    /// Configure the on-interval snapshot cadence (seconds of injected time).
    pub fn set_snapshot_interval(&mut self, secs: i64)
        ensures
            final(self)@ == (EngineView { snapshot_interval: Some(secs), ..old(self)@ }),
    {
        self.snapshot_interval = Some(secs);
    }

    /// Commit an interval snapshot if the configured interval has elapsed since
    /// the last one. Returns whether it committed. Driven from the tick loop.
    pub fn maybe_snapshot(&mut self) -> (r: Result<bool, StoreError>)
        ensures
            exists|now: i64|
                #[trigger] (old(self)@.time)(now) && old(self)@.snapshotted(final(self)@, now, r),
    {
        let now = self.clock.inner.now_unix();
        assert((old(self)@.time)(now));
        let due = match self.snapshot_interval {
            Some(interval) => now as i128 - self.last_snapshot as i128 >= interval as i128,
            None => false,
        };
        if !due {
            assert(old(self)@.snapshotted(self@, now, Ok(false)));
            return Ok(false);
        }
        let committed = self.store.is_some();
        match self.persist("interval snapshot", now) {
            Ok(()) => {},
            Err(e) => {
                assert(old(self)@.snapshotted(self@, now, Err(e)));
                return Err(e);
            },
        }
        let ghost saved = self@;
        self.last_snapshot = now;
        proof {
            assert(self@ == EngineView { last_snapshot: now, ..saved });
            assert(saved == EngineView { last_snapshot: old(self)@.last_snapshot, ..self@ });
            assert(old(self)@.snapshotted(self@, now, Ok(committed)));
        }
        Ok(committed)
    }

    /// OOC world-building: create a new room reached by `direction` from the
    /// session's current room, linked both ways, and checkpoint it.
    pub fn dig(
        &mut self,
        session: SessionId,
        direction: Direction,
        new_id: &str,
        name: &str,
        description: &str,
    ) -> (r: Result<EntityId, DigError>)
        ensures
            old(self)@.digging(
                final(self)@,
                session@,
                direction,
                new_id@,
                name@,
                description@,
                dig_view(r),
            ),
            (r is Ok || (r is Err && r->Err_0 is Store)) ==> laws::linked(
                old(self)@.realm,
                final(self)@.realm,
                old(self)@.realm.mobs[old(self)@.sessions[session@].actor].location,
                direction,
                new_id@,
                name@,
                description@,
            ),
            (r is Err && !(r->Err_0 is Store)) ==> final(self)@ == old(self)@,
    {
        let actor = match self.session_actor(session) {
            Some(actor) => actor.clone(),
            None => {
                return Err(DigError::NoSession);
            },
        };
        let current = match self.realm.mob_location(&actor) {
            Some(room) => room.clone(),
            None => {
                return Err(DigError::NoLocation);
            },
        };
        let new_room_id = match EntityId::new(new_id) {
            Ok(id) => id,
            Err(_) => {
                return Err(DigError::InvalidId(new_id.to_string()));
            },
        };
        if self.realm.world.room(&new_room_id).is_some() {
            return Err(DigError::RoomExists);
        }
        // Create the new room with a back-exit to the current room.
        let mut exits: SortedMap<Direction, EntityId> = SortedMap::new();
        exits.insert(direction.opposite(), current.clone());
        self.realm.world.insert_room(
            Room {
                id: new_room_id.clone(),
                name: name.to_string(),
                description: description.to_string(),
                exits,
            },
        );
        // Link the current room's exit to the new room.
        if let Some(room) = self.realm.world.rooms.get_mut(&current) {
            room.exits.insert(direction, new_room_id.clone());
        }
        let ghost dug = self@;
        proof {
            assert(dug.realm == old(self)@.realm.dug(
                current@,
                direction,
                new_id@,
                name@,
                description@,
            ));
        }
        let message = text::join_two("dig ", new_id);
        let kept = self.checkpoint(message.as_str());
        proof {
            let now = choose|now: i64|
                #[trigger] (dug.time)(now) && dug.persisted(self@, message@, now, store::failure(kept));
            assert(dug == old(self)@.with_realm(dug.realm));
            assert(old(self)@.with_realm(dug.realm).persisted(
                self@,
                "dig "@ + new_id@,
                now,
                store::failure(kept),
            ));
        }
        proof {
            laws::lemma_digging_links(
                old(self)@.realm,
                current@,
                direction,
                new_id@,
                name@,
                description@,
            );
        }
        match kept {
            Ok(()) => Ok(new_room_id),
            Err(e) => Err(DigError::Store(e)),
        }
    }
}

/// The outcome of digging, as the contracts see it.
pub open spec fn dig_view(r: Result<EntityId, DigError>) -> model::Dug {
    match r {
        Ok(id) => model::Dug::Done(id@),
        Err(DigError::NoSession) => model::Dug::Refused(model::DigRefusal::NoSession),
        Err(DigError::NoLocation) => model::Dug::Refused(model::DigRefusal::NoLocation),
        Err(DigError::InvalidId(id)) => model::Dug::Refused(model::DigRefusal::InvalidId(id@)),
        Err(DigError::RoomExists) => model::Dug::Refused(model::DigRefusal::RoomExists),
        Err(DigError::Store(e)) => model::Dug::NotKept(e),
    }
}

} // verus!
