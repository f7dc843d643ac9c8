//! What an API connection does with the engine, apart from reading and writing.

use vstd::prelude::*;

use crate::api::handler::{self, handle_api_request, ApiOutcome, OutcomeView, ShapeView};
use crate::api::protocol::{ApiRequest, ApiResponse, RequestView, ResponseView};
use crate::direction::Direction;
use crate::engine::model::EngineView;
use crate::engine::Engine;
use crate::id::EntityId;
use crate::realm::RealmView;
use crate::seqs;
use crate::session::SessionId;
use crate::telnet::provision::despawn_player;
use crate::text;

verus! {

/// How a request's resulting session (if any) should be cleaned up when the
/// connection ends.
#[derive(Debug, Clone, Copy, PartialEq, Eq, Structural)]
pub enum RequestKind {
    /// `Connect`: despawn (mob + session) on cleanup.
    Ephemeral,
    /// `ConnectAs`: disconnect the session only; the named mob persists.
    Persistent,
    /// `Disconnect { session }`: already handled inline; stop tracking it.
    Disconnected(SessionId),
    /// Anything else: doesn't affect tracking.
    Other,
}

/// The kind of a request.
pub open spec fn kind_of(req: RequestView) -> RequestKind {
    match req {
        RequestView::Connect => RequestKind::Ephemeral,
        RequestView::ConnectAs { .. } => RequestKind::Persistent,
        RequestView::Disconnect { session } => RequestKind::Disconnected(SessionId(session)),
        _ => RequestKind::Other,
    }
}

impl RequestKind {
    pub fn of(req: &ApiRequest) -> (r: RequestKind)
        ensures
            r == kind_of(req@),
    {
        match req {
            ApiRequest::Connect => RequestKind::Ephemeral,
            ApiRequest::ConnectAs { .. } => RequestKind::Persistent,
            ApiRequest::Disconnect { session } => RequestKind::Disconnected(SessionId(*session)),
            _ => RequestKind::Other,
        }
    }
}

/// The sessions that a connection has spawned but not yet explicitly
/// disconnected.
#[derive(Debug)]
pub struct ApiConnection {
    ephemeral: Vec<SessionId>,
    persistent: Vec<SessionId>,
}

#[verifier::ext_equal]
pub struct ConnectionView {
    /// Sessions whose players are despawned when the connection ends.
    pub ephemeral: Seq<u64>,
    /// Sessions that are disconnected when the connection ends.
    pub persistent: Seq<u64>,
}

impl View for ApiConnection {
    type V = ConnectionView;

    closed spec fn view(&self) -> ConnectionView {
        ConnectionView {
            ephemeral: text::views(self.ephemeral@),
            persistent: text::views(self.persistent@),
        }
    }
}

/// Whether a session is another one than `id`.
pub open spec fn other_than(id: u64) -> spec_fn(u64) -> bool {
    |s: u64| s != id
}

impl ConnectionView {
    /// A connection that has spawned nothing.
    pub open spec fn fresh() -> ConnectionView {
        ConnectionView { ephemeral: seq![], persistent: seq![] }
    }

    /// After a request of this kind came out this way.
    pub open spec fn tracking(self, kind: RequestKind, outcome: OutcomeView) -> ConnectionView {
        match kind {
            RequestKind::Ephemeral => match outcome {
                OutcomeView::AwaitDrain { session, .. } => ConnectionView {
                    ephemeral: self.ephemeral.push(session),
                    ..self
                },
                OutcomeView::Ready(_) => self,
            },
            RequestKind::Persistent => match outcome {
                OutcomeView::AwaitDrain { session, .. } => ConnectionView {
                    persistent: self.persistent.push(session),
                    ..self
                },
                OutcomeView::Ready(_) => self,
            },
            RequestKind::Disconnected(id) => ConnectionView {
                ephemeral: self.ephemeral.filter(other_than(id.0)),
                persistent: self.persistent.filter(other_than(id.0)),
            },
            RequestKind::Other => self,
        }
    }
}

impl EngineView {
    /// After the player of the session, if it is still there, was despawned.
    pub open spec fn cleared(self, session: u64) -> EngineView {
        match self.actor_of(session) {
            Some(actor) => self.despawned(session, actor),
            None => self,
        }
    }

    /// After all these players were despawned.
    pub open spec fn all_cleared(self, sessions: Seq<u64>) -> EngineView
        decreases sessions.len(),
    {
        if sessions.len() == 0 {
            self
        } else {
            self.all_cleared(sessions.drop_last()).cleared(sessions.last())
        }
    }

    /// After all these sessions were disconnected.
    pub open spec fn all_disconnected(self, sessions: Seq<u64>) -> EngineView
        decreases sessions.len(),
    {
        if sessions.len() == 0 {
            self
        } else {
            self.all_disconnected(sessions.drop_last()).disconnected(sessions.last())
        }
    }
}

/// The sessions other than `id`, in order.
fn without(sessions: &Vec<SessionId>, id: SessionId) -> (r: Vec<SessionId>)
    ensures
        text::views(r@) == text::views(sessions@).filter(other_than(id@)),
{
    let ghost all = text::views(sessions@);
    let ghost p = other_than(id@);
    let mut out: Vec<SessionId> = Vec::new();
    proof {
        seqs::lemma_filter_empty(all.take(0), p);
        assert(text::views(out@) =~= all.take(0).filter(p));
    }
    for i in 0..sessions.len()
        invariant
            all == text::views(sessions@),
            p == other_than(id@),
            text::views(out@) == all.take(i as int).filter(p),
    {
        proof {
            assert(all.take(i + 1) =~= all.take(i as int).push(all[i as int]));
            seqs::lemma_filter_push(all.take(i as int), p, all[i as int]);
        }
        if sessions[i].0 != id.0 {
            let ghost before = text::views(out@);
            out.push(sessions[i]);
            assert(text::views(out@) =~= before.push(all[i as int]));
        }
    }
    assert(all.take(sessions@.len() as int) =~= all);
    out
}

impl ApiConnection {
    pub fn new() -> (r: ApiConnection)
        ensures
            r@ == ConnectionView::fresh(),
    {
        let r = ApiConnection { ephemeral: Vec::new(), persistent: Vec::new() };
        assert(r@ =~= ConnectionView::fresh());
        r
    }

    /// Take up one request, and keep track of the session it creates or ends.
    ///
    /// A Disconnect ends its session inside `handle_api_request` itself, so that
    /// session is no longer tracked.
    pub fn begin(&mut self, engine: &mut Engine, req: ApiRequest, start_room: &EntityId) -> (r:
        ApiOutcome)
        requires
            handler::opens_session(req@) ==> old(engine)@.next_session < u64::MAX,
            req is Connect ==> old(engine)@.next_anon < u64::MAX,
        ensures
            handler::handled(old(engine)@, final(engine)@, req@, start_room@, r@),
            final(self)@ == old(self)@.tracking(kind_of(req@), r@),
    {
        let kind = RequestKind::of(&req);
        let outcome = handle_api_request(engine, req, start_room);
        match kind {
            RequestKind::Ephemeral => {
                if let ApiOutcome::AwaitDrain { session, .. } = &outcome {
                    self.ephemeral.push(*session);
                    assert(text::views(self.ephemeral@) =~= old(self)@.ephemeral.push(session@));
                }
            },
            RequestKind::Persistent => {
                if let ApiOutcome::AwaitDrain { session, .. } = &outcome {
                    self.persistent.push(*session);
                    assert(text::views(self.persistent@) =~= old(self)@.persistent.push(session@));
                }
            },
            RequestKind::Disconnected(sid) => {
                self.ephemeral = without(&self.ephemeral, sid);
                self.persistent = without(&self.persistent, sid);
            },
            RequestKind::Other => {},
        }
        outcome
    }

    /// Clean up the sessions this connection created, whichever way it ended.
    /// Ephemeral players are despawned entirely; persistent (named) actors only
    /// lose their session.
    pub fn finish(&self, engine: &mut Engine)
        ensures
            final(engine)@ == old(engine)@.all_cleared(self@.ephemeral).all_disconnected(
                self@.persistent,
            ),
    {
        let ghost start = engine@;
        let ghost gone = text::views(self.ephemeral@);
        for i in 0..self.ephemeral.len()
            invariant
                gone == text::views(self.ephemeral@),
                engine@ == start.all_cleared(gone.take(i as int)),
        {
            proof {
                assert(gone.take(i + 1).drop_last() =~= gone.take(i as int));
                assert(gone.take(i + 1).last() == gone[i as int]);
            }
            let sid = self.ephemeral[i];
            let actor = match engine.session_actor(sid) {
                Some(actor) => Some(actor.clone()),
                None => None,
            };
            if let Some(actor) = actor {
                despawn_player(engine, sid, &actor);
            }
        }
        assert(gone.take(self.ephemeral@.len() as int) =~= gone);
        let ghost mid = engine@;
        let ghost left = text::views(self.persistent@);
        for i in 0..self.persistent.len()
            invariant
                left == text::views(self.persistent@),
                engine@ == mid.all_disconnected(left.take(i as int)),
        {
            proof {
                assert(left.take(i + 1).drop_last() =~= left.take(i as int));
                assert(left.take(i + 1).last() == left[i as int]);
            }
            let _ = engine.disconnect(self.persistent[i]);
        }
        assert(left.take(self.persistent@.len() as int) =~= left);
    }
}

/// The response to a line that is no request.
pub fn bad_request(why: &str) -> (r: ApiResponse)
    ensures
        r@ == (ResponseView::Error { message: "bad request: "@ + why@ }),
{
    ApiResponse::Error { message: text::join_two("bad request: ", why) }
}

/// Waiting for a drain: until the engine has completed at least one drain past
/// `before`, but no longer than a number of attempts (a stuck tick loop must not
/// hang the connection).
#[derive(Debug)]
pub struct DrainWait {
    before: u64,
    attempts_left: u32,
}

pub struct WaitView {
    pub before: u64,
    pub attempts_left: u32,
}

impl View for DrainWait {
    type V = WaitView;

    closed spec fn view(&self) -> WaitView {
        WaitView { before: self.before, attempts_left: self.attempts_left }
    }
}

impl DrainWait {
    pub fn new(before: u64) -> (r: DrainWait)
        ensures
            r@ == (WaitView { before, attempts_left: 300 }),
    {
        DrainWait { before, attempts_left: 300 }
    }

    /// Whether to wait once more, given how many drains there have been.
    pub fn keep_waiting(&mut self, drain_count: u64) -> (r: bool)
        ensures
            r == (old(self)@.attempts_left > 0 && drain_count <= old(self)@.before),
            final(self)@ == (WaitView {
                attempts_left: if r {
                    (old(self)@.attempts_left - 1) as u32
                } else {
                    old(self)@.attempts_left
                },
                ..old(self)@
            }),
    {
        if self.attempts_left == 0 || drain_count > self.before {
            return false;
        }
        self.attempts_left = self.attempts_left - 1;
        true
    }
}

// ---------------------------------------------------------------------------
// Laws
// ---------------------------------------------------------------------------

proof fn lemma_clearing_only_removes(e: EngineView, sessions: Seq<u64>, id: u64)
    ensures
        e.all_cleared(sessions).sessions.contains_key(id) ==> e.sessions.contains_key(id),
        sessions.contains(id) ==> !e.all_cleared(sessions).sessions.contains_key(id),
        !sessions.contains(id) && e.sessions.contains_key(id) ==> e.all_cleared(
            sessions,
        ).sessions.contains_key(id) && e.all_cleared(sessions).sessions[id] == e.sessions[id],
    decreases sessions.len(),
{
    if sessions.len() > 0 {
        let front = sessions.drop_last();
        lemma_clearing_only_removes(e, front, id);
        assert(sessions =~= front.push(sessions.last()));
        seqs::lemma_push_contains(front, sessions.last(), id);
    }
}

proof fn lemma_disconnecting_only_removes(e: EngineView, sessions: Seq<u64>, id: u64)
    ensures
        e.all_disconnected(sessions).realm == e.realm,
        e.all_disconnected(sessions).sessions.contains_key(id) <==> e.sessions.contains_key(id)
            && !sessions.contains(id),
        !sessions.contains(id) && e.sessions.contains_key(id) ==> e.all_disconnected(
            sessions,
        ).sessions[id] == e.sessions[id],
    decreases sessions.len(),
{
    if sessions.len() > 0 {
        let front = sessions.drop_last();
        lemma_disconnecting_only_removes(e, front, id);
        assert(sessions =~= front.push(sessions.last()));
        seqs::lemma_push_contains(front, sessions.last(), id);
    }
}

/// However a connection ends, none of the sessions it tracks is left; all other
/// sessions stay as they are.
pub proof fn lemma_finish_leaves_no_session(e: EngineView, c: ConnectionView, id: u64)
    ensures
        ({
            let after = e.all_cleared(c.ephemeral).all_disconnected(c.persistent);
            &&& c.ephemeral.contains(id) || c.persistent.contains(id)
                ==> !after.sessions.contains_key(id)
            &&& !c.ephemeral.contains(id) && !c.persistent.contains(id)
                && e.sessions.contains_key(id) ==> after.sessions.contains_key(id)
                && after.sessions[id] == e.sessions[id]
        }),
{
    lemma_clearing_only_removes(e, c.ephemeral, id);
    lemma_disconnecting_only_removes(e.all_cleared(c.ephemeral), c.persistent, id);
}

proof fn lemma_cleared_mobs_are_gone(e: EngineView, sessions: Seq<u64>, id: u64)
    requires
        sessions.contains(id),
        e.sessions.contains_key(id),
    ensures
        !e.all_cleared(sessions).realm.mobs.contains_key(e.sessions[id].actor),
    decreases sessions.len(),
{
    let front = sessions.drop_last();
    let last = sessions.last();
    assert(sessions =~= front.push(last));
    seqs::lemma_push_contains(front, last, id);
    let mid = e.all_cleared(front);
    if front.contains(id) {
        lemma_cleared_mobs_are_gone(e, front, id);
    } else {
        assert(id == last);
        lemma_clearing_only_removes(e, front, id);
    }
}

/// The players that a connection spawned leave the world with it.
pub proof fn lemma_ephemeral_players_leave(e: EngineView, c: ConnectionView, id: u64)
    requires
        c.ephemeral.contains(id),
        e.sessions.contains_key(id),
    ensures
        !e.all_cleared(c.ephemeral).all_disconnected(c.persistent).realm.mobs.contains_key(
            e.sessions[id].actor,
        ),
{
    lemma_cleared_mobs_are_gone(e, c.ephemeral, id);
    lemma_disconnecting_only_removes(e.all_cleared(c.ephemeral), c.persistent, id);
}

proof fn lemma_other_mobs_are_not_cleared(e: EngineView, sessions: Seq<u64>, actor: text::Text)
    requires
        forall|i: int| 0 <= i < sessions.len() ==> e.actor_of(#[trigger] sessions[i]) != Some(actor),
        e.realm.mobs.contains_key(actor),
    ensures
        e.all_cleared(sessions).realm.mobs.contains_key(actor),
        e.all_cleared(sessions).realm.mobs[actor] == e.realm.mobs[actor],
    decreases sessions.len(),
{
    if sessions.len() > 0 {
        let front = sessions.drop_last();
        let last = sessions.last();
        assert forall|i: int| 0 <= i < front.len() implies e.actor_of(#[trigger] front[i]) != Some(
            actor,
        ) by {
            assert(sessions[i] == front[i]);
        }
        lemma_other_mobs_are_not_cleared(e, front, actor);
        lemma_clearing_only_removes(e, front, last);
        assert(e.actor_of(sessions[sessions.len() - 1]) != Some(actor));
        if front.contains(last) {
        } else if e.sessions.contains_key(last) {
            assert(e.all_cleared(front).sessions[last] == e.sessions[last]);
        }
    }
}

/// However a connection ends, an actor that none of its anonymous players is
/// keeps its mob, as it is and where it is: named actors only lose their sessions,
/// so that a later `ConnectAs` can reattach.
pub proof fn lemma_named_actors_stay(e: EngineView, c: ConnectionView, actor: text::Text)
    requires
        e.realm.mobs.contains_key(actor),
        forall|i: int|
            0 <= i < c.ephemeral.len() ==> e.actor_of(#[trigger] c.ephemeral[i]) != Some(actor),
    ensures
        ({
            let after = e.all_cleared(c.ephemeral).all_disconnected(c.persistent);
            &&& after.realm.mobs.contains_key(actor)
            &&& after.realm.mobs[actor] == e.realm.mobs[actor]
        }),
{
    lemma_other_mobs_are_not_cleared(e, c.ephemeral, actor);
    lemma_disconnecting_only_removes(e.all_cleared(c.ephemeral), c.persistent, 0);
}

/// A named actor survives an explicit disconnect of its session, and then the end
/// of the connection, whatever players the connection has besides.
pub proof fn lemma_named_actor_survives_disconnect_and_end(
    e: EngineView,
    after: EngineView,
    c: ConnectionView,
    start_room: text::Text,
    session: u64,
    actor: text::Text,
    outcome: OutcomeView,
)
    requires
        e.persists(session),
        e.actor_of(session) == Some(actor),
        e.realm.mobs.contains_key(actor),
        forall|i: int|
            0 <= i < c.ephemeral.len() ==> e.actor_of(#[trigger] c.ephemeral[i]) != Some(actor),
        handler::handled(e, after, RequestView::Disconnect { session }, start_room, outcome),
    ensures
        ({
            let left = c.tracking(kind_of(RequestView::Disconnect { session }), outcome);
            let end = after.all_cleared(left.ephemeral).all_disconnected(left.persistent);
            &&& end.actor_of(session) is None
            &&& end.realm.mobs.contains_key(actor)
            &&& end.realm.mobs[actor] == e.realm.mobs[actor]
        }),
{
    let left = c.tracking(kind_of(RequestView::Disconnect { session }), outcome);
    assert(after == e.disconnected(session));
    assert forall|i: int| 0 <= i < left.ephemeral.len() implies after.actor_of(
        #[trigger] left.ephemeral[i],
    ) != Some(actor) by {
        let s = left.ephemeral[i];
        assert(left.ephemeral.contains(s));
        seqs::lemma_filter_contains(c.ephemeral, other_than(session), s);
        let j = choose|j: int| 0 <= j < c.ephemeral.len() && c.ephemeral[j] == s;
        assert(e.actor_of(c.ephemeral[j]) != Some(actor));
    }
    lemma_named_actors_stay(after, left, actor);
    lemma_clearing_only_removes(after, left.ephemeral, session);
    lemma_disconnecting_only_removes(
        after.all_cleared(left.ephemeral),
        left.persistent,
        session,
    );
}

/// A session that was disconnected on request is not tracked any more.
pub proof fn lemma_disconnected_is_untracked(
    c: ConnectionView,
    session: u64,
    outcome: OutcomeView,
)
    ensures
        ({
            let after = c.tracking(kind_of(RequestView::Disconnect { session }), outcome);
            !after.ephemeral.contains(session) && !after.persistent.contains(session)
        }),
{
    seqs::lemma_filter_contains(c.ephemeral, other_than(session), session);
    seqs::lemma_filter_contains(c.persistent, other_than(session), session);
}

/// What a connection keeps track of. The session of an anonymous connect is to be
/// cleared in the end, that of a named one disconnected; a session that was disconnected
/// on request is forgotten, wherever it stands, and the others stay in order. Nothing
/// else, and no request that is answered with an error, is tracked.
pub proof fn lemma_what_is_tracked(
    c: ConnectionView,
    actor: text::Text,
    session: u64,
    before: u64,
    shape: ShapeView,
    response: ResponseView,
    direction: Direction,
)
    ensures
        ({
            let opened = OutcomeView::AwaitDrain { session, before, shape };
            let answered = OutcomeView::Ready(response);
            let connect = kind_of(RequestView::Connect);
            let connect_as = kind_of(RequestView::ConnectAs { actor });
            let gone = c.tracking(kind_of(RequestView::Disconnect { session }), answered);
            &&& c.tracking(connect, opened).ephemeral == c.ephemeral.push(session)
            &&& c.tracking(connect, opened).persistent == c.persistent
            &&& c.tracking(connect_as, opened).persistent == c.persistent.push(session)
            &&& c.tracking(connect_as, opened).ephemeral == c.ephemeral
            &&& c.tracking(connect, answered) == c
            &&& c.tracking(connect_as, answered) == c
            &&& gone.ephemeral == c.ephemeral.filter(|s: u64| s != session)
            &&& gone.persistent == c.persistent.filter(|s: u64| s != session)
            &&& c.tracking(kind_of(RequestView::Look { session }), opened) == c
            &&& c.tracking(kind_of(RequestView::Move { session, direction }), opened) == c
        }),
{
    assert(other_than(session) =~= (|s: u64| s != session));
}

proof fn lemma_clearing_touches_no_more(e: EngineView, sessions: Seq<u64>, actor: text::Text)
    ensures
        ({
            let after = e.all_cleared(sessions);
            &&& after == EngineView {
                realm: RealmView { mobs: after.realm.mobs, ..e.realm },
                sessions: after.sessions,
                ..e
            }
            &&& after.realm.mobs.contains_key(actor) ==> e.realm.mobs.contains_key(actor)
        }),
    decreases sessions.len(),
{
    if sessions.len() > 0 {
        lemma_clearing_touches_no_more(e, sessions.drop_last(), actor);
    }
}

proof fn lemma_disconnecting_touches_no_more(e: EngineView, sessions: Seq<u64>)
    ensures
        e.all_disconnected(sessions) == (EngineView {
            sessions: e.all_disconnected(sessions).sessions,
            ..e
        }),
    decreases sessions.len(),
{
    if sessions.len() > 0 {
        lemma_disconnecting_touches_no_more(e, sessions.drop_last());
    }
}

/// When a connection ends, exactly the sessions that it tracks are closed, and exactly
/// the actors of those to be cleared leave the world; nothing else changes.
pub proof fn lemma_what_finishing_does(
    e: EngineView,
    c: ConnectionView,
    id: u64,
    actor: text::Text,
)
    ensures
        ({
            let after = e.all_cleared(c.ephemeral).all_disconnected(c.persistent);
            &&& after.sessions.contains_key(id) <==> e.sessions.contains_key(id)
                && !c.ephemeral.contains(id) && !c.persistent.contains(id)
            &&& after.sessions.contains_key(id) ==> after.sessions[id] == e.sessions[id]
            &&& after.realm.mobs.contains_key(actor) <==> e.realm.mobs.contains_key(actor)
                && forall|i: int|
                #![trigger c.ephemeral[i]]
                0 <= i < c.ephemeral.len() && e.sessions.contains_key(c.ephemeral[i])
                    ==> e.sessions[c.ephemeral[i]].actor != actor
            &&& after.realm.mobs.contains_key(actor) ==> after.realm.mobs[actor]
                == e.realm.mobs[actor]
            &&& after == EngineView {
                realm: RealmView { mobs: after.realm.mobs, ..e.realm },
                sessions: after.sessions,
                ..e
            }
        }),
{
    let mid = e.all_cleared(c.ephemeral);
    lemma_clearing_only_removes(e, c.ephemeral, id);
    lemma_disconnecting_only_removes(mid, c.persistent, id);
    lemma_clearing_touches_no_more(e, c.ephemeral, actor);
    lemma_disconnecting_touches_no_more(mid, c.persistent);
    assert forall|i: int|
        #![trigger c.ephemeral[i]]
        0 <= i < c.ephemeral.len() && e.sessions.contains_key(
            c.ephemeral[i],
        ) implies !mid.realm.mobs.contains_key(e.sessions[c.ephemeral[i]].actor) by {
        assert(c.ephemeral.contains(c.ephemeral[i]));
        lemma_cleared_mobs_are_gone(e, c.ephemeral, c.ephemeral[i]);
    }
    if e.realm.mobs.contains_key(actor) && forall|i: int|
        #![trigger c.ephemeral[i]]
        0 <= i < c.ephemeral.len() && e.sessions.contains_key(c.ephemeral[i])
            ==> e.sessions[c.ephemeral[i]].actor != actor {
        lemma_other_mobs_are_not_cleared(e, c.ephemeral, actor);
    }
}

/// What is no request is answered with an error that says why.
pub proof fn lemma_bad_requests_are_told(why: &str, r: ApiResponse)
    requires
        call_ensures(bad_request, (why,), r),
    ensures
        r@ is Error,
        r@->message == "bad request: "@ + why@,
{
}

/// A connection waits for a drain three hundred times at most.
pub proof fn lemma_how_long_a_connection_waits(before: u64, r: DrainWait)
    requires
        call_ensures(DrainWait::new, (before,), r),
    ensures
        r@.before == before,
        r@.attempts_left == 300,
{
}

} // verus!
