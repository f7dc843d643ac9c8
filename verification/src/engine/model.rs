//! What the engine is, and what each of its operations makes of it.

use vstd::prelude::*;

use crate::direction::{self, Direction};
use crate::engine::delivery::{self, Message};
use crate::fabric::dispatch;
use crate::fabric::intent::IntentView;
use crate::fabric::operator::{self, OperatorView, PresentationKind};
use crate::fabric::rate_limit::{self, Admitted, AdmissionView, Asking};
use crate::id;
use crate::presentation;
use crate::realm::RealmView;
use crate::session::SessionView;
use crate::store::{self, Conduct, StoreError, Stored};
use crate::text;
use crate::world::RoomView;

verus! {

/// A store as the engine sees it.
pub struct StoreView {
    pub contents: Stored,
    pub faithful: bool,
    pub unfailing: bool,
    pub state: int,
    pub conduct: Conduct,
}

/// The engine as the contracts see it.
pub struct EngineView {
    pub realm: RealmView,
    /// What the clock may read.
    pub time: spec_fn(i64) -> bool,
    pub sessions: Map<u64, SessionView>,
    pub next_session: u64,
    pub next_anon: u64,
    pub tick: u64,
    pub store: Option<StoreView>,
    pub snapshot_interval: Option<i64>,
    pub last_snapshot: i64,
    pub queue: Seq<(u64, IntentView)>,
    pub limiter: Admitted,
    pub drain_count: u64,
}

/// What has been worked off of a queue: the realm, what the rate limits
/// remember, and the messages so far.
pub struct Progress {
    pub realm: RealmView,
    pub limiter: Admitted,
    pub batch: Seq<Message>,
}

impl Progress {
    /// After one more intent: it is dispatched if it is admitted, and answered
    /// with a refusal if it is dropped.
    pub open spec fn worked(self, intent: IntentView, tick: int) -> Progress {
        let actor = intent.actor();
        let ops = self.realm.operators;
        let ask = Asking { class: operator::class_of(intent), actor, tick };
        let limiter = rate_limit::remembered(self.limiter, ops, ask);
        match rate_limit::verdict(self.limiter, ops, ask) {
            AdmissionView::Admit => {
                let (realm, result) = dispatch::dispatched(self.realm, intent);
                Progress { realm, limiter, batch: self.batch + result.messages }
            },
            AdmissionView::Drop { deny } => {
                let t = match deny {
                    Some(t) => t,
                    None => self.realm.rate_limit_message,
                };
                Progress {
                    limiter,
                    batch: self.batch.push((actor, presentation::plain_denial(t))),
                    ..self
                }
            },
        }
    }

    /// After all intents of a queue, in order.
    pub open spec fn worked_off(self, queue: Seq<(u64, IntentView)>, tick: int) -> Progress
        decreases queue.len(),
    {
        if queue.len() == 0 {
            self
        } else {
            self.worked_off(queue.drop_last(), tick).worked(queue.last().1, tick)
        }
    }
}

/// The kinds that `op` collapses.
pub open spec fn kinds_of(op: OperatorView) -> Seq<PresentationKind> {
    match op {
        OperatorView::Coalesce { on, .. } => on,
        OperatorView::RateLimit { .. } => seq![],
    }
}

/// The kinds that any of the operators collapses.
pub open spec fn collapsing(ops: Seq<OperatorView>) -> Seq<PresentationKind>
    decreases ops.len(),
{
    if ops.len() == 0 {
        seq![]
    } else {
        collapsing(ops.drop_last()) + kinds_of(ops.last())
    }
}

/// Why nothing is dug.
pub enum DigRefusal {
    NoSession,
    NoLocation,
    InvalidId(text::Text),
    RoomExists,
}

/// What came of digging.
pub enum Dug {
    /// The room is there and was persisted.
    Done(text::Text),
    /// Nothing was dug.
    Refused(DigRefusal),
    /// The room is there, but the store failed to keep it, for this reason.
    NotKept(StoreError),
}

impl RealmView {
    /// This realm with a new room reached by `direction` from the room `from`,
    /// linked both ways.
    pub open spec fn dug(
        self,
        from: text::Text,
        direction: Direction,
        new_id: text::Text,
        name: text::Text,
        description: text::Text,
    ) -> RealmView {
        let room = RoomView {
            id: new_id,
            name,
            description,
            exits: Map::empty().insert(direction::opposite_of(direction), from),
        };
        let with_room = self.world.insert(new_id, room);
        RealmView {
            world: if with_room.contains_key(from) {
                let old_room = with_room[from];
                with_room.insert(
                    from,
                    RoomView { exits: old_room.exits.insert(direction, new_id), ..old_room },
                )
            } else {
                with_room
            },
            ..self
        }
    }
}

impl EngineView {
    /// An engine around `realm` with nobody connected and no store.
    pub open spec fn fresh(realm: RealmView, time: spec_fn(i64) -> bool) -> EngineView {
        EngineView {
            realm,
            time,
            sessions: Map::empty(),
            next_session: 0,
            next_anon: 0,
            tick: 0,
            store: None,
            snapshot_interval: None,
            last_snapshot: 0,
            queue: seq![],
            limiter: Map::empty(),
            drain_count: 0,
        }
    }

    /// Whether every session id in use has been given out. The ids that will be
    /// given out are therefore new.
    pub open spec fn orderly(self) -> bool {
        forall|id: u64| #[trigger] self.sessions.contains_key(id) ==> id < self.next_session
    }

    /// The actor that the session `id` drives.
    pub open spec fn actor_of(self, id: u64) -> Option<text::Text> {
        if self.sessions.contains_key(id) {
            Some(self.sessions[id].actor)
        } else {
            None
        }
    }

    pub open spec fn with_realm(self, realm: RealmView) -> EngineView {
        EngineView { realm, ..self }
    }

    /// After a session was opened, under the next number.
    pub open spec fn opened(self, session: SessionView) -> EngineView {
        EngineView {
            sessions: self.sessions.insert(self.next_session, session),
            next_session: (self.next_session + 1) as u64,
            ..self
        }
    }

    pub open spec fn connected(self, actor: text::Text) -> EngineView {
        self.opened(SessionView::fresh(actor))
    }

    /// After a session was opened whose actor outlives it.
    pub open spec fn connected_as(self, actor: text::Text) -> EngineView {
        self.opened(SessionView::lasting(actor))
    }

    /// Whether the session `id` is there, with an actor who outlives it.
    pub open spec fn persists(self, id: u64) -> bool {
        self.sessions.contains_key(id) && self.sessions[id].persistent
    }

    pub open spec fn disconnected(self, id: u64) -> EngineView {
        EngineView { sessions: self.sessions.remove(id), ..self }
    }

    pub open spec fn minted(self) -> EngineView {
        EngineView { next_anon: (self.next_anon + 1) as u64, ..self }
    }

    /// Whether the session `id` may propose `intent`: a session may only drive
    /// the actor it is bound to.
    pub open spec fn authorized(self, id: u64, intent: IntentView) -> bool {
        self.actor_of(id) == Some(intent.actor())
    }

    /// After an intent was submitted: dispatched at once, if it is authorized.
    pub open spec fn submitted(self, id: u64, intent: IntentView) -> EngineView {
        if self.authorized(id, intent) {
            let (realm, result) = dispatch::dispatched(self.realm, intent);
            EngineView {
                realm,
                sessions: delivery::delivered(self.sessions, result.messages, seq![]),
                ..self
            }
        } else {
            self
        }
    }

    /// After these intents were submitted, one after the other.
    pub open spec fn submitted_all(self, intents: Seq<(u64, IntentView)>) -> EngineView
        decreases intents.len(),
    {
        if intents.len() == 0 {
            self
        } else {
            self.submitted_all(intents.drop_last()).submitted(
                intents.last().0,
                intents.last().1,
            )
        }
    }

    /// After these intents were enqueued, one after the other.
    pub open spec fn enqueued_all(self, intents: Seq<(u64, IntentView)>) -> EngineView
        decreases intents.len(),
    {
        if intents.len() == 0 {
            self
        } else {
            self.enqueued_all(intents.drop_last()).enqueued(intents.last().0, intents.last().1)
        }
    }

    /// Whether each of these intents is one that its session may propose.
    pub open spec fn all_authorized(self, intents: Seq<(u64, IntentView)>) -> bool {
        forall|i: int|
            0 <= i < intents.len() ==> self.authorized((#[trigger] intents[i]).0, intents[i].1)
    }

    /// After an intent was enqueued, if it is authorized.
    pub open spec fn enqueued(self, id: u64, intent: IntentView) -> EngineView {
        if self.authorized(id, intent) {
            EngineView { queue: self.queue.push((id, intent)), ..self }
        } else {
            self
        }
    }

    /// What is pending for the session `id`.
    pub open spec fn pending(self, id: u64) -> Seq<presentation::NodeView> {
        if self.sessions.contains_key(id) {
            self.sessions[id].outbox
        } else {
            seq![]
        }
    }

    /// After what was pending for the session `id` was taken.
    pub open spec fn polled(self, id: u64) -> EngineView {
        if self.sessions.contains_key(id) {
            EngineView {
                sessions: self.sessions.insert(
                    id,
                    SessionView { outbox: seq![], ..self.sessions[id] },
                ),
                ..self
            }
        } else {
            self
        }
    }

    /// What comes of working off the queue in this state.
    pub open spec fn progress(self) -> Progress {
        Progress { realm: self.realm, limiter: self.limiter, batch: seq![] }.worked_off(
            self.queue,
            self.tick as int,
        )
    }

    /// After the queue was drained: worked off in order, and the messages handed
    /// out, collapsed by recipient.
    pub open spec fn drained(self) -> EngineView {
        let done = self.progress();
        EngineView {
            realm: done.realm,
            limiter: done.limiter,
            queue: seq![],
            sessions: delivery::delivered(
                self.sessions,
                done.batch,
                collapsing(done.realm.operators),
            ),
            drain_count: (self.drain_count + 1) as u64,
            ..self
        }
    }

    /// After one tick.
    pub open spec fn ticked(self) -> EngineView {
        EngineView { tick: (self.tick + 1) as u64, ..self }.drained()
    }

    /// After a store was attached while the clock read `now`: the store as it was
    /// given, and the wait for the next snapshot begins.
    pub open spec fn with_store(self, store: StoreView, now: i64) -> EngineView {
        EngineView { store: Some(store), last_snapshot: now, ..self }
    }

    /// Whether a snapshot is due when the clock reads `now`.
    pub open spec fn snapshot_due(self, now: i64) -> bool {
        match self.snapshot_interval {
            Some(interval) => now - self.last_snapshot >= interval,
            None => false,
        }
    }

    /// Whether `after` is this engine once it was asked to persist the realm at
    /// time `now`, and failed that way or not. Its store, if there is one, was asked to save
    /// the realm, and then, if it could, to commit; the failure is the store's own. Nothing else of the engine changes.
    pub open spec fn persisted(
        self,
        after: EngineView,
        message: text::Text,
        now: i64,
        failed: Option<StoreError>,
    ) -> bool {
        &&& after == EngineView { store: after.store, ..self }
        &&& match (self.store, after.store) {
            (None, None) => failed is None,
            (Some(was), Some(is)) => {
                &&& is.conduct == was.conduct
                &&& store::keeping(
                    was.conduct,
                    was.state,
                    self.realm,
                    message,
                    now,
                    is.state,
                    failed,
                )
                &&& was.unfailing ==> failed is None && is.unfailing
                &&& was.faithful ==> is.faithful && (failed is None ==> is.contents
                    == was.contents.saved(self.realm).committed(message, now))
            },
            _ => false,
        }
    }

    /// Why the session cannot dig a room with the id `new_id`, if it cannot.
    pub open spec fn dig_refusal(self, session: u64, new_id: text::Text) -> Option<DigRefusal> {
        match self.actor_of(session) {
            None => Some(DigRefusal::NoSession),
            Some(actor) => match self.realm.location(actor) {
                None => Some(DigRefusal::NoLocation),
                Some(_) => if !id::valid_id(new_id) {
                    Some(DigRefusal::InvalidId(new_id))
                } else if self.realm.world.contains_key(new_id) {
                    Some(DigRefusal::RoomExists)
                } else {
                    None
                },
            },
        }
    }

    /// Whether `after` is this engine once it was asked for a snapshot while the
    /// clock read `now`, and answered `r`. Nothing happens before a snapshot is
    /// due. One that is due resets the snapshot clock, unless the store fails.
    pub open spec fn snapshotted(
        self,
        after: EngineView,
        now: i64,
        r: Result<bool, StoreError>,
    ) -> bool {
        if !self.snapshot_due(now) {
            r == Ok::<bool, StoreError>(false) && after == self
        } else {
            &&& self.persisted(
                EngineView { last_snapshot: self.last_snapshot, ..after },
                "interval snapshot"@,
                now,
                store::failure(r),
            )
            &&& r matches Ok(committed) ==> committed == self.store is Some && after.last_snapshot
                == now
            &&& r is Err ==> after.last_snapshot == self.last_snapshot
        }
    }

    /// Whether `after` is this engine once the session tried to dig, with that
    /// outcome. What is dug stays even where the store fails to keep it.
    pub open spec fn digging(
        self,
        after: EngineView,
        session: u64,
        direction: Direction,
        new_id: text::Text,
        name: text::Text,
        description: text::Text,
        outcome: Dug,
    ) -> bool {
        match self.dig_refusal(session, new_id) {
            Some(why) => outcome == Dug::Refused(why) && after == self,
            None => {
                let realm = self.realm.dug(
                    self.digs_in(session),
                    direction,
                    new_id,
                    name,
                    description,
                );
                &&& outcome == Dug::Done(new_id) || outcome is NotKept
                &&& exists|now: i64|
                    #[trigger] (self.time)(now) && self.with_realm(realm).persisted(
                        after,
                        "dig "@ + new_id,
                        now,
                        match outcome {
                            Dug::NotKept(e) => Some(e),
                            _ => None,
                        },
                    )
            },
        }
    }

    /// The room in which the session digs.
    pub open spec fn digs_in(self, session: u64) -> text::Text {
        self.realm.location(self.actor_of(session)->0)->0
    }
}

} // verus!
