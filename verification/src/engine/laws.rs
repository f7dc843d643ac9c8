//! What holds of the engine as a whole.

use vstd::prelude::*;

use crate::direction::{self, Direction};
use crate::engine::delivery;
use crate::engine::model::{self, DigRefusal, Dug, EngineView, Progress, StoreView};
use crate::fabric::coalesce;
use crate::fabric::dispatch;
use crate::fabric::intent::IntentView;
use crate::fabric::operator::{self, IntentClass, OperatorView, Scope};
use crate::fabric::rate_limit::{self, AdmissionView, Asking, Bucket};
use crate::id;
use crate::presentation::{self, NodeView};
use crate::realm::RealmView;
use crate::session::SessionView;
use crate::store::{self, StoreError};
use crate::text;

verus! {

// ---------------------------------------------------------------------------
// Sessions
// ---------------------------------------------------------------------------

/// A session may only drive the actor it is bound to: anything else is a no-op.
pub proof fn lemma_unauthorized_is_a_no_op(e: EngineView, id: u64, intent: IntentView)
    requires
        e.actor_of(id) != Some(intent.actor()),
    ensures
        e.submitted(id, intent) == e,
        e.enqueued(id, intent) == e,
{
}

/// A new session has an id that no session has, is bound to its actor and has
/// nothing pending; all other sessions stay as they are.
pub proof fn lemma_connect_gives_a_new_session(e: EngineView, actor: text::Text)
    requires
        e.orderly(),
        e.next_session < u64::MAX,
    ensures
        !e.sessions.contains_key(e.next_session),
        e.connected(actor).actor_of(e.next_session) == Some(actor),
        e.connected(actor).pending(e.next_session).len() == 0,
        forall|id: u64| #[trigger]
            e.sessions.contains_key(id) ==> e.connected(actor).sessions.contains_key(id)
                && e.connected(actor).sessions[id] == e.sessions[id],
        e.connected(actor).next_session > e.next_session,
{
}

/// Ids are given out in increasing order whatever happens in between, so two
/// sessions never share one: every operation keeps the ids in use below the next
/// one to give out, and none gives back a number.
pub proof fn lemma_operations_keep_sessions_orderly(
    e: EngineView,
    actor: text::Text,
    id: u64,
    intent: IntentView,
)
    requires
        e.orderly(),
        e.next_session < u64::MAX,
    ensures
        e.connected(actor).orderly(),
        e.connected_as(actor).orderly(),
        e.disconnected(id).orderly(),
        e.minted().orderly(),
        e.submitted(id, intent).orderly(),
        e.enqueued(id, intent).orderly(),
        e.polled(id).orderly(),
        e.ticked().orderly(),
        e.disconnected(id).next_session == e.next_session,
        e.submitted(id, intent).next_session == e.next_session,
        e.enqueued(id, intent).next_session == e.next_session,
        e.polled(id).next_session == e.next_session,
        e.ticked().next_session == e.next_session,
{
    assert forall|k: u64| #[trigger] e.connected(actor).sessions.contains_key(k) implies k
        < e.connected(actor).next_session by {
        if k != e.next_session {
            assert(e.sessions.contains_key(k));
        }
    }
    assert forall|k: u64| #[trigger] e.connected_as(actor).sessions.contains_key(k) implies k
        < e.connected_as(actor).next_session by {
        if k != e.next_session {
            assert(e.sessions.contains_key(k));
        }
    }
    assert forall|k: u64| #[trigger] e.disconnected(id).sessions.contains_key(k) implies k
        < e.next_session by {
        assert(e.sessions.contains_key(k));
    }
    assert forall|k: u64| #[trigger] e.submitted(id, intent).sessions.contains_key(k) implies k
        < e.next_session by {
        assert(e.sessions.contains_key(k));
    }
    assert forall|k: u64| #[trigger] e.polled(id).sessions.contains_key(k) implies k
        < e.next_session by {
        assert(e.sessions.contains_key(k));
    }
    assert forall|k: u64| #[trigger] e.ticked().sessions.contains_key(k) implies k
        < e.next_session by {
        assert(e.sessions.contains_key(k));
    }
}

/// A new engine is orderly: nobody is connected.
pub proof fn lemma_fresh_engine_is_orderly(realm: RealmView, time: spec_fn(i64) -> bool)
    ensures
        EngineView::fresh(realm, time).orderly(),
        forall|id: u64| EngineView::fresh(realm, time).actor_of(id) is None,
{
}

/// After a disconnect the session is gone, and so is its right to act.
pub proof fn lemma_disconnect_ends_the_session(e: EngineView, id: u64, intent: IntentView)
    ensures
        e.disconnected(id).actor_of(id) is None,
        e.disconnected(id).submitted(id, intent) == e.disconnected(id),
        e.disconnected(id).enqueued(id, intent) == e.disconnected(id),
{
}

/// Polling drains: what was pending is pending no more, polling again gives
/// nothing and changes nothing, and no other session notices.
pub proof fn lemma_poll_drains(e: EngineView, id: u64, other: u64)
    ensures
        e.polled(id).pending(id).len() == 0,
        e.polled(id).polled(id) == e.polled(id),
        other != id ==> e.polled(id).pending(other) == e.pending(other),
        e.polled(id).actor_of(other) == e.actor_of(other),
        e.polled(id).realm == e.realm,
{
    if e.sessions.contains_key(id) {
        assert(e.polled(id).polled(id).sessions =~= e.polled(id).sessions);
    }
}

// ---------------------------------------------------------------------------
// Ticks
// ---------------------------------------------------------------------------

/// Each tick drains the queue once.
pub proof fn lemma_tick_drains_the_queue(e: EngineView)
    requires
        e.tick < u64::MAX,
        e.drain_count < u64::MAX,
    ensures
        e.ticked().tick == e.tick + 1,
        e.ticked().drain_count == e.drain_count + 1,
        e.ticked().queue.len() == 0,
        e.ticked().store == e.store,
        e.ticked().next_anon == e.next_anon,
{
}

/// Working off intents moves mobs about and changes nothing else of the realm.
pub proof fn lemma_work_moves_only_mobs(p: Progress, queue: Seq<(u64, IntentView)>, tick: int)
    ensures
        ({
            let done = p.worked_off(queue, tick).realm;
            &&& done.world == p.realm.world
            &&& done.rules == p.realm.rules
            &&& done.operators == p.realm.operators
            &&& done.no_exit_message == p.realm.no_exit_message
            &&& done.rate_limit_message == p.realm.rate_limit_message
            &&& done.mobs.dom() == p.realm.mobs.dom()
            &&& p.realm.consistent() ==> done.consistent()
        }),
    decreases queue.len(),
{
    if queue.len() > 0 {
        lemma_work_moves_only_mobs(p, queue.drop_last(), tick);
        let before = p.worked_off(queue.drop_last(), tick);
        let intent = queue.last().1;
        dispatch::lemma_dispatch_moves_only_the_actor(before.realm, intent);
        if before.realm.consistent() {
            dispatch::lemma_dispatch_keeps_consistency(before.realm, intent);
        }
    }
}

/// A tick leaves the authored world, the rules and the operators alone, and
/// brings no mob into being nor out of it.
pub proof fn lemma_tick_moves_only_mobs(e: EngineView)
    ensures
        e.ticked().realm.world == e.realm.world,
        e.ticked().realm.rules == e.realm.rules,
        e.ticked().realm.operators == e.realm.operators,
        e.ticked().realm.mobs.dom() == e.realm.mobs.dom(),
        e.realm.consistent() ==> e.ticked().realm.consistent(),
{
    let now = EngineView { tick: (e.tick + 1) as u64, ..e };
    let from = Progress { realm: now.realm, limiter: now.limiter, batch: seq![] };
    lemma_work_moves_only_mobs(from, now.queue, now.tick as int);
}

/// An intent that a rate limit drops changes nothing in the realm, and its actor
/// is told: by the operator's own text, or else by the realm's.
pub proof fn lemma_dropped_intent_is_answered(
    p: Progress,
    intent: IntentView,
    tick: int,
    deny: Option<text::Text>,
)
    requires
        rate_limit::verdict(
            p.limiter,
            p.realm.operators,
            (Asking { class: operator::class_of(intent), actor: intent.actor(), tick }),
        ) == (AdmissionView::Drop { deny }),
    ensures
        p.worked(intent, tick).realm == p.realm,
        p.worked(intent, tick).limiter == p.limiter,
        p.worked(intent, tick).batch == p.batch.push(
            (
                intent.actor(),
                presentation::plain_denial(
                    match deny {
                        Some(t) => t,
                        None => p.realm.rate_limit_message,
                    },
                ),
            ),
        ),
{
}

/// What is handed out in two batches, without collapsing, is what is handed out in
/// one.
proof fn lemma_deliveries_add(
    sessions: Map<u64, SessionView>,
    a: Seq<delivery::Message>,
    b: Seq<delivery::Message>,
)
    ensures
        delivery::delivered(delivery::delivered(sessions, a, seq![]), b, seq![])
            == delivery::delivered(sessions, a + b, seq![]),
{
    let once = delivery::delivered(sessions, a, seq![]);
    let twice = delivery::delivered(once, b, seq![]);
    let together = delivery::delivered(sessions, a + b, seq![]);
    assert forall|id: u64| sessions.contains_key(id) implies #[trigger] twice[id]
        == together[id] by {
        let s = sessions[id];
        let first = delivery::nodes_for(a, s.actor);
        let second = delivery::nodes_for(b, s.actor);
        delivery::lemma_nodes_for_add(a, b, s.actor);
        coalesce::lemma_nothing_listed_nothing_collapses(first, seq![]);
        coalesce::lemma_nothing_listed_nothing_collapses(second, seq![]);
        coalesce::lemma_nothing_listed_nothing_collapses(first + second, seq![]);
        assert(s.outbox + first + second =~= s.outbox + (first + second));
        assert(once[id] == delivery::received(a, seq![])(s));
        assert(twice[id] == delivery::received(b, seq![])(once[id]));
        assert(together[id] == delivery::received(a + b, seq![])(s));
    }
    assert(twice =~= together);
}

proof fn lemma_working_off_is_submitting(e: EngineView, queue: Seq<(u64, IntentView)>, tick: int)
    requires
        e.realm.operators.len() == 0,
        e.all_authorized(queue),
    ensures
        ({
            let from = Progress { realm: e.realm, limiter: e.limiter, batch: seq![] };
            let done = from.worked_off(queue, tick);
            let after = e.submitted_all(queue);
            &&& after.realm == done.realm
            &&& after.sessions == delivery::delivered(e.sessions, done.batch, seq![])
        }),
    decreases queue.len(),
{
    let from = Progress { realm: e.realm, limiter: e.limiter, batch: seq![] };
    if queue.len() == 0 {
        let same = delivery::delivered(e.sessions, seq![], seq![]);
        assert forall|id: u64| e.sessions.contains_key(id) implies #[trigger] same[id]
            == e.sessions[id] by {
            delivery::lemma_bystanders_receive_nothing(seq![], seq![], e.sessions[id]);
            assert(same[id] == delivery::received(seq![], seq![])(e.sessions[id]));
        }
        assert(same =~= e.sessions);
    } else {
        let front = queue.drop_last();
        let (id, intent) = queue.last();
        assert forall|i: int| 0 <= i < front.len() implies e.authorized(
            (#[trigger] front[i]).0,
            front[i].1,
        ) by {
            assert(queue[i] == front[i]);
        }
        lemma_working_off_is_submitting(e, front, tick);
        lemma_work_moves_only_mobs(from, front, tick);
        let before = from.worked_off(front, tick);
        let so_far = e.submitted_all(front);
        assert(e.authorized(queue[queue.len() - 1].0, queue[queue.len() - 1].1));
        assert(so_far.sessions[id] == delivery::received(before.batch, seq![])(e.sessions[id]));
        assert(so_far.authorized(id, intent));
        let ask = Asking { class: operator::class_of(intent), actor: intent.actor(), tick };
        rate_limit::lemma_unlimited_is_admitted(before.limiter, before.realm.operators, ask);
        let said = dispatch::dispatched(before.realm, intent).1.messages;
        lemma_deliveries_add(e.sessions, before.batch, said);
    }
}

/// Without operators nothing stands between enqueueing and dispatching: a tick has
/// the effect of submitting what is queued, in order.
pub proof fn lemma_tick_submits_the_queue(e: EngineView)
    requires
        e.realm.operators.len() == 0,
        e.all_authorized(e.queue),
    ensures
        e.ticked().realm == e.submitted_all(e.queue).realm,
        e.ticked().sessions == e.submitted_all(e.queue).sessions,
{
    let now = EngineView { tick: (e.tick + 1) as u64, ..e };
    let from = Progress { realm: e.realm, limiter: e.limiter, batch: seq![] };
    lemma_working_off_is_submitting(e, e.queue, now.tick as int);
    lemma_work_moves_only_mobs(from, e.queue, now.tick as int);
    assert(model::collapsing(now.progress().realm.operators) =~= seq![]);
}

proof fn lemma_enqueueing_queues(e: EngineView, intents: Seq<(u64, IntentView)>)
    requires
        e.all_authorized(intents),
    ensures
        e.enqueued_all(intents) == (EngineView { queue: e.queue + intents, ..e }),
    decreases intents.len(),
{
    if intents.len() == 0 {
        assert(e.queue + intents =~= e.queue);
    } else {
        let front = intents.drop_last();
        assert forall|i: int| 0 <= i < front.len() implies e.authorized(
            (#[trigger] front[i]).0,
            front[i].1,
        ) by {
            assert(intents[i] == front[i]);
        }
        lemma_enqueueing_queues(e, front);
        assert(e.authorized(intents[intents.len() - 1].0, intents[intents.len() - 1].1));
        assert(e.queue + intents =~= (e.queue + front).push(intents.last()));
    }
}

/// Without operators, intents that were enqueued, however many, and drained by the
/// next tick have the effect of submitting them in order.
pub proof fn lemma_enqueue_and_tick_is_submit(e: EngineView, intents: Seq<(u64, IntentView)>)
    requires
        e.queue.len() == 0,
        e.realm.operators.len() == 0,
        e.all_authorized(intents),
    ensures
        e.enqueued_all(intents).ticked().realm == e.submitted_all(intents).realm,
        e.enqueued_all(intents).ticked().sessions == e.submitted_all(intents).sessions,
{
    lemma_enqueueing_queues(e, intents);
    assert(e.queue + intents =~= intents);
    let queued = e.enqueued_all(intents);
    assert forall|i: int| 0 <= i < intents.len() implies queued.authorized(
        (#[trigger] intents[i]).0,
        intents[i].1,
    ) by {
        assert(e.authorized(intents[i].0, intents[i].1));
    }
    lemma_tick_submits_the_queue(queued);
    let tick = (e.tick + 1) as u64 as int;
    lemma_working_off_is_submitting(e, intents, tick);
    lemma_working_off_is_submitting(queued, intents, tick);
}

// ---------------------------------------------------------------------------
// One drain under a rate limit
// ---------------------------------------------------------------------------

/// What has been worked off when the turn of the `i`-th intent comes.
pub open spec fn at_turn(
    p: Progress,
    queue: Seq<(u64, IntentView)>,
    tick: int,
    i: int,
) -> Progress {
    p.worked_off(queue.take(i), tick)
}

/// Whether the `i`-th intent of a queue is dispatched, not dropped.
pub open spec fn is_dispatched(
    p: Progress,
    queue: Seq<(u64, IntentView)>,
    tick: int,
    i: int,
) -> bool {
    let now = at_turn(p, queue, tick, i);
    let intent = queue[i].1;
    rate_limit::verdict(
        now.limiter,
        now.realm.operators,
        Asking { class: operator::class_of(intent), actor: intent.actor(), tick },
    ) == AdmissionView::Admit
}

/// A rate limit per actor, on its own.
pub open spec fn one_limit(
    class: IntentClass,
    per_ticks: u64,
    deny: Option<text::Text>,
) -> Seq<OperatorView> {
    seq![OperatorView::RateLimit { on: class, per_ticks, scope: Scope::PerActor, deny }]
}

/// What is said to whoever is dropped.
pub open spec fn dropped_text(realm: RealmView, deny: Option<text::Text>) -> text::Text {
    match deny {
        Some(t) => t,
        None => realm.rate_limit_message,
    }
}

/// What comes to the ears of `who` while a queue is worked off: of every intent
/// that is dispatched what it directs to them, and of every intent of their own
/// that is dropped one denial.
pub open spec fn heard(
    p: Progress,
    queue: Seq<(u64, IntentView)>,
    tick: int,
    deny: Option<text::Text>,
    who: text::Text,
) -> Seq<NodeView>
    decreases queue.len(),
{
    if queue.len() == 0 {
        seq![]
    } else {
        let last = queue.len() - 1;
        let intent = queue[last].1;
        heard(p, queue.drop_last(), tick, deny, who) + if is_dispatched(p, queue, tick, last) {
            delivery::nodes_for(
                dispatch::dispatched(at_turn(p, queue, tick, last).realm, intent).1.messages,
                who,
            )
        } else if intent.actor() == who {
            seq![presentation::plain_denial(dropped_text(p.realm, deny))]
        } else {
            seq![]
        }
    }
}

/// The turn of the `i`-th intent works it off, and leaves the operators and the text
/// of refusals alone.
pub proof fn lemma_turn(p: Progress, queue: Seq<(u64, IntentView)>, tick: int, i: int)
    requires
        0 <= i < queue.len(),
    ensures
        at_turn(p, queue, tick, i + 1) == at_turn(p, queue, tick, i).worked(queue[i].1, tick),
        at_turn(p, queue, tick, i).realm.operators == p.realm.operators,
        at_turn(p, queue, tick, i).realm.rate_limit_message == p.realm.rate_limit_message,
{
    assert(queue.take(i + 1).drop_last() =~= queue.take(i));
    assert(queue.take(i + 1).last() == queue[i]);
    lemma_work_moves_only_mobs(p, queue.take(i), tick);
}

proof fn lemma_admission_is_remembered(
    p: Progress,
    queue: Seq<(u64, IntentView)>,
    tick: int,
    class: IntentClass,
    per_ticks: u64,
    deny: Option<text::Text>,
    i: int,
    n: int,
)
    requires
        p.realm.operators == one_limit(class, per_ticks, deny),
        0 <= tick <= u64::MAX,
        0 <= i < n <= queue.len(),
        operator::class_of(queue[i].1) == class,
        is_dispatched(p, queue, tick, i),
    ensures
        ({
            let limiter = at_turn(p, queue, tick, n).limiter;
            let bucket = (0int, Some(queue[i].1.actor()));
            limiter.contains_key(bucket) && limiter[bucket] == tick
        }),
    decreases n - i,
{
    let ops = p.realm.operators;
    let bucket = (0int, Some(queue[i].1.actor()));
    lemma_turn(p, queue, tick, n - 1);
    let intent = queue[n - 1].1;
    let ask = Asking { class: operator::class_of(intent), actor: intent.actor(), tick };
    assert(rate_limit::bucket(ops[0], 0, ask.actor) == (0int, Some(ask.actor)));
    if n == i + 1 {
        assert(rate_limit::counts(ops, ask, bucket));
    } else {
        lemma_admission_is_remembered(p, queue, tick, class, per_ticks, deny, i, n - 1);
    }
}

/// Admit at most one matching intent per window per actor, within one drain: of the
/// queued intents of the limited class no two of one actor are dispatched. Every
/// intent of the other class is dispatched.
pub proof fn lemma_one_dispatch_per_actor_and_drain(
    p: Progress,
    queue: Seq<(u64, IntentView)>,
    tick: int,
    class: IntentClass,
    per_ticks: u64,
    deny: Option<text::Text>,
    i: int,
    j: int,
)
    requires
        p.realm.operators == one_limit(class, per_ticks, deny),
        per_ticks >= 1,
        0 <= tick <= u64::MAX,
        0 <= i < j < queue.len(),
    ensures
        operator::class_of(queue[i].1) == class && operator::class_of(queue[j].1) == class
            && queue[i].1.actor() == queue[j].1.actor() ==> !is_dispatched(p, queue, tick, i)
            || !is_dispatched(p, queue, tick, j),
        operator::class_of(queue[i].1) != class ==> is_dispatched(p, queue, tick, i),
        operator::class_of(queue[j].1) != class ==> is_dispatched(p, queue, tick, j),
{
    lemma_other_class_is_dispatched(p, queue, tick, class, per_ticks, deny, i);
    lemma_other_class_is_dispatched(p, queue, tick, class, per_ticks, deny, j);
    if operator::class_of(queue[i].1) == class && operator::class_of(queue[j].1) == class
        && queue[i].1.actor() == queue[j].1.actor() && is_dispatched(p, queue, tick, i) {
        lemma_admission_is_remembered(p, queue, tick, class, per_ticks, deny, i, j);
        lemma_turn(p, queue, tick, j);
        let now = at_turn(p, queue, tick, j);
        let ops = now.realm.operators;
        let intent = queue[j].1;
        let ask = Asking { class: operator::class_of(intent), actor: intent.actor(), tick };
        assert(rate_limit::bucket(ops[0], 0, ask.actor) == (0int, Some(ask.actor)));
        assert(rate_limit::drops(now.limiter, ops, ask, 0));
        assert(rate_limit::refusal(now.limiter, ops, ask, 0) == Some(0int));
    }
}

/// An intent of a class that no operator limits is dispatched.
pub proof fn lemma_other_class_is_dispatched(
    p: Progress,
    queue: Seq<(u64, IntentView)>,
    tick: int,
    class: IntentClass,
    per_ticks: u64,
    deny: Option<text::Text>,
    i: int,
)
    requires
        p.realm.operators == one_limit(class, per_ticks, deny),
        0 <= i < queue.len(),
    ensures
        operator::class_of(queue[i].1) != class ==> is_dispatched(p, queue, tick, i),
{
    lemma_turn(p, queue, tick, i);
    let now = at_turn(p, queue, tick, i);
    let intent = queue[i].1;
    let ask = Asking { class: operator::class_of(intent), actor: intent.actor(), tick };
    if ask.class != class {
        rate_limit::lemma_unlimited_is_admitted(now.limiter, now.realm.operators, ask);
    }
}

/// What the turn of an intent does: one that is dispatched has its effect on the
/// realm and its messages; one that is dropped changes nothing in the realm, and is
/// answered with exactly one denial, to its actor.
pub proof fn lemma_turns_under_a_rate_limit(
    p: Progress,
    queue: Seq<(u64, IntentView)>,
    tick: int,
    class: IntentClass,
    per_ticks: u64,
    deny: Option<text::Text>,
    i: int,
)
    requires
        p.realm.operators == one_limit(class, per_ticks, deny),
        0 <= i < queue.len(),
    ensures
        ({
            let now = at_turn(p, queue, tick, i);
            let next = at_turn(p, queue, tick, i + 1);
            let intent = queue[i].1;
            if is_dispatched(p, queue, tick, i) {
                let (realm, result) = dispatch::dispatched(now.realm, intent);
                next.realm == realm && next.batch == now.batch + result.messages
            } else {
                &&& operator::class_of(intent) == class
                &&& next.realm == now.realm
                &&& next.batch == now.batch.push(
                    (intent.actor(), presentation::plain_denial(dropped_text(p.realm, deny))),
                )
            }
        }),
{
    lemma_turn(p, queue, tick, i);
    lemma_other_class_is_dispatched(p, queue, tick, class, per_ticks, deny, i);
    let now = at_turn(p, queue, tick, i);
    let intent = queue[i].1;
    let ask = Asking { class: operator::class_of(intent), actor: intent.actor(), tick };
    rate_limit::lemma_refusal(now.limiter, now.realm.operators, ask, 0);
}

proof fn lemma_batch_is_heard(
    p: Progress,
    queue: Seq<(u64, IntentView)>,
    tick: int,
    class: IntentClass,
    per_ticks: u64,
    deny: Option<text::Text>,
    who: text::Text,
)
    requires
        p.realm.operators == one_limit(class, per_ticks, deny),
    ensures
        delivery::nodes_for(p.worked_off(queue, tick).batch, who) == delivery::nodes_for(
            p.batch,
            who,
        ) + heard(p, queue, tick, deny, who),
    decreases queue.len(),
{
    let start = delivery::nodes_for(p.batch, who);
    if queue.len() == 0 {
        assert(start + heard(p, queue, tick, deny, who) =~= start);
    } else {
        let last = queue.len() - 1;
        let front = queue.drop_last();
        lemma_batch_is_heard(p, front, tick, class, per_ticks, deny, who);
        assert(queue.take(last) =~= front);
        assert(queue.take(last + 1) =~= queue);
        lemma_turns_under_a_rate_limit(p, queue, tick, class, per_ticks, deny, last);
        let now = at_turn(p, queue, tick, last);
        let intent = queue[last].1;
        let before = heard(p, front, tick, deny, who);
        if is_dispatched(p, queue, tick, last) {
            let said = dispatch::dispatched(now.realm, intent).1.messages;
            delivery::lemma_nodes_for_add(now.batch, said, who);
            assert(start + (before + delivery::nodes_for(said, who)) =~= start + before
                + delivery::nodes_for(said, who));
        } else {
            let m = (intent.actor(), presentation::plain_denial(dropped_text(p.realm, deny)));
            assert(now.batch.push(m) =~= now.batch + seq![m]);
            delivery::lemma_nodes_for_add(now.batch, seq![m], who);
            delivery::lemma_nodes_for_one(m, who);
            let more = if intent.actor() == who {
                seq![m.1]
            } else {
                seq![]
            };
            assert(start + (before + more) =~= start + before + more);
        }
    }
}

/// What a drain under a rate limit hands to a session: behind what was pending, of
/// every dispatched intent what it directs to the session's actor, and for every
/// dropped intent of that actor exactly one denial.
pub proof fn lemma_drain_under_a_rate_limit(
    e: EngineView,
    class: IntentClass,
    per_ticks: u64,
    deny: Option<text::Text>,
    id: u64,
)
    requires
        e.realm.operators == one_limit(class, per_ticks, deny),
        e.sessions.contains_key(id),
    ensures
        ({
            let from = Progress { realm: e.realm, limiter: e.limiter, batch: seq![] };
            let s = e.sessions[id];
            e.drained().pending(id) == s.outbox + heard(
                from,
                e.queue,
                e.tick as int,
                deny,
                s.actor,
            )
        }),
{
    let from = Progress { realm: e.realm, limiter: e.limiter, batch: seq![] };
    let who = e.sessions[id].actor;
    let tick = e.tick as int;
    lemma_work_moves_only_mobs(from, e.queue, tick);
    lemma_batch_is_heard(from, e.queue, tick, class, per_ticks, deny, who);
    let ops = e.progress().realm.operators;
    assert(ops.drop_last() =~= seq![]);
    assert(model::collapsing(ops.drop_last()) =~= seq![]);
    assert(model::collapsing(ops) =~= seq![]);
    let nodes = delivery::nodes_for(e.progress().batch, who);
    coalesce::lemma_nothing_listed_nothing_collapses(nodes, seq![]);
    delivery::lemma_nothing_for_anyone(who);
    let told = heard(from, e.queue, tick, deny, who);
    assert(seq![] + told =~= told);
    assert(nodes == told);
}

// ---------------------------------------------------------------------------
// Digging
// ---------------------------------------------------------------------------

/// A dug room is linked both ways: it leads back to where it was dug from, and
/// the room it was dug from leads to it, with its other exits as they were. No
/// other room changes.
pub proof fn lemma_dug_rooms_are_linked_both_ways(
    realm: RealmView,
    from: text::Text,
    direction: Direction,
    new_id: text::Text,
    name: text::Text,
    description: text::Text,
)
    requires
        realm.world.contains_key(from),
        !realm.world.contains_key(new_id),
    ensures
        ({
            let after = realm.dug(from, direction, new_id, name, description);
            &&& after.world.contains_key(new_id)
            &&& after.world[new_id].id == new_id
            &&& after.world[new_id].name == name
            &&& after.world[new_id].description == description
            &&& after.world[new_id].exits == Map::empty().insert(
                direction::opposite_of(direction),
                from,
            )
            &&& after.world[from].exits == realm.world[from].exits.insert(direction, new_id)
            &&& forall|id: text::Text| #[trigger]
                realm.world.contains_key(id) && id != from ==> after.world.contains_key(id)
                    && after.world[id] == realm.world[id]
            &&& after.mobs == realm.mobs
            &&& realm.consistent() ==> after.consistent()
        }),
{
    let after = realm.dug(from, direction, new_id, name, description);
    if realm.consistent() {
        assert forall|id: text::Text| #[trigger] after.world.contains_key(id) implies after.world[id].id
            == id by {
            if id != new_id {
                assert(realm.world.contains_key(id));
            }
        }
        assert forall|id: text::Text| #[trigger] after.mobs.contains_key(id) implies after.mobs[id].id
            == id by {
            assert(realm.mobs.contains_key(id));
        }
    }
}

/// Whether `after` is `before` with one more room, `id`, that was dug in this
/// direction from the room `from`. The exits of `from` are as they were but that this
/// one leads to the new room; the new room has one exit, against that direction, back
/// to `from`. Everything else is as it was. Only a room that is dug where there was no
/// room leads to itself both ways.
pub open spec fn linked(
    before: RealmView,
    after: RealmView,
    from: text::Text,
    direction: Direction,
    id: text::Text,
    name: text::Text,
    description: text::Text,
) -> bool {
    &&& forall|room: text::Text| #[trigger]
        after.world.contains_key(room) <==> before.world.contains_key(room) || room == id
    &&& after.world[id].id == id
    &&& after.world[id].name == name
    &&& after.world[id].description == description
    &&& forall|d: Direction| #[trigger]
        after.world[id].exits.contains_key(d) <==> {
            let (there, back) = (direction::step(direction), direction::step(d));
            ||| there.0 + back.0 == 0 && there.1 + back.1 == 0 && there.2 + back.2 == 0
            ||| from == id && d == direction
        }
    &&& forall|d: Direction| #[trigger]
        after.world[id].exits.contains_key(d) ==> after.world[id].exits[d] == from
    &&& before.world.contains_key(from) ==> {
        let (was, is) = (before.world[from], after.world[from]);
        &&& is.exits.contains_key(direction) && is.exits[direction] == id
        &&& forall|d: Direction|
            #![trigger is.exits.contains_key(d)]
            d != direction ==> is.exits.contains_key(d) == was.exits.contains_key(d) && (
            was.exits.contains_key(d) ==> is.exits[d] == was.exits[d])
        &&& is.id == was.id
        &&& is.name == was.name
        &&& is.description == was.description
    }
    &&& forall|room: text::Text| #[trigger]
        before.world.contains_key(room) && room != from ==> after.world[room] == before.world[room]
    &&& after.mobs == before.mobs
    &&& after.rules == before.rules
    &&& after.operators == before.operators
    &&& after.no_exit_message == before.no_exit_message
    &&& after.rate_limit_message == before.rate_limit_message
}

/// What is dug is linked both ways.
pub proof fn lemma_digging_links(
    realm: RealmView,
    from: text::Text,
    direction: Direction,
    id: text::Text,
    name: text::Text,
    description: text::Text,
)
    requires
        !realm.world.contains_key(id),
    ensures
        linked(
            realm,
            realm.dug(from, direction, id, name, description),
            from,
            direction,
            id,
            name,
            description,
        ),
{
    let after = realm.dug(from, direction, id, name, description);
    let back = Map::<Direction, text::Text>::empty().insert(
        direction::opposite_of(direction),
        from,
    );
    assert(after.world[id].exits == if from == id {
        back.insert(direction, id)
    } else {
        back
    });
}

/// What digging does, by who digs. Nothing is dug, and nothing changes, for a session
/// that is not there, for one whose actor is not in the realm, where the id is not a
/// valid one, or where there is such a room already, and the answer says which. In all
/// other cases the room where the session's actor stands and the new room are linked
/// both ways, whether the store keeps them or not, and nothing else of the engine but
/// its store changes.
pub proof fn lemma_what_digging_does(
    e: EngineView,
    after: EngineView,
    session: u64,
    direction: Direction,
    id: text::Text,
    name: text::Text,
    description: text::Text,
    outcome: Dug,
)
    requires
        e.digging(after, session, direction, id, name, description, outcome),
    ensures
        ({
            let actor = e.sessions[session].actor;
            let from = e.realm.mobs[actor].location;
            if !e.sessions.contains_key(session) {
                outcome == Dug::Refused(DigRefusal::NoSession) && after == e
            } else if !e.realm.mobs.contains_key(actor) {
                outcome == Dug::Refused(DigRefusal::NoLocation) && after == e
            } else if !id::valid_id(id) {
                outcome == Dug::Refused(DigRefusal::InvalidId(id)) && after == e
            } else if e.realm.world.contains_key(id) {
                outcome == Dug::Refused(DigRefusal::RoomExists) && after == e
            } else {
                &&& outcome == Dug::Done(id) || outcome is NotKept
                &&& after == EngineView { realm: after.realm, store: after.store, ..e }
                &&& linked(e.realm, after.realm, from, direction, id, name, description)
            }
        }),
{
    let actor = e.sessions[session].actor;
    if e.sessions.contains_key(session) && e.realm.mobs.contains_key(actor) && id::valid_id(id)
        && !e.realm.world.contains_key(id) {
        let from = e.realm.mobs[actor].location;
        assert(e.digs_in(session) == from);
        lemma_digging_links(e.realm, from, direction, id, name, description);
        let realm = e.realm.dug(from, direction, id, name, description);
        let now = choose|now: i64|
            #[trigger] (e.time)(now) && e.with_realm(realm).persisted(
                after,
                "dig "@ + id,
                now,
                match outcome {
                    Dug::NotKept(e) => Some(e),
                    _ => None,
                },
            );
        assert(after.realm == realm);
    }
}

// ---------------------------------------------------------------------------
// Persistence
// ---------------------------------------------------------------------------

/// Attaching a store takes it as it is and starts the wait for the next snapshot:
/// nothing is saved or committed, realm and sessions stay, and from then on a
/// snapshot comes due once the interval has passed since the attach, and no sooner.
/// Until then asking for one answers `false` and changes nothing.
pub proof fn lemma_wait_starts_at_the_attach(
    e: EngineView,
    store: StoreView,
    attached: i64,
    interval: i64,
    now: i64,
    after: EngineView,
    r: Result<bool, StoreError>,
)
    requires
        e.snapshot_interval == Some(interval),
    ensures
        ({
            let with = e.with_store(store, attached);
            &&& with.store == Some(store)
            &&& with == EngineView { store: Some(store), last_snapshot: attached, ..e }
            &&& with.realm == e.realm
            &&& with.sessions == e.sessions
            &&& with.snapshot_due(now) <==> now >= attached + interval
            &&& now < attached + interval && with.snapshotted(after, now, r) ==> r == Ok::<
                bool,
                StoreError,
            >(false) && after == with
            &&& now >= attached + interval && with.snapshotted(after, now, r) && r is Ok ==> r
                == Ok::<bool, StoreError>(true) && after.last_snapshot == now
        }),
{
}

/// Right after a snapshot another one is not due, unless the interval is not
/// positive.
pub proof fn lemma_snapshot_is_not_due_again(
    e: EngineView,
    after: EngineView,
    now: i64,
    committed: bool,
)
    requires
        e.snapshot_due(now),
        e.snapshotted(after, now, Ok(committed)),
        e.snapshot_interval->0 > 0,
    ensures
        !after.snapshot_due(now),
        after.snapshot_interval == e.snapshot_interval,
{
}

/// Live state survives a restart: what a faithful store gives back after a
/// checkpoint, and what its last commit holds, is the realm as it was, with every
/// mob where it stood. Rooms that only the store had are there too; where it had
/// none, the world is the same.
pub proof fn lemma_checkpoint_survives_a_restart(
    e: EngineView,
    after: EngineView,
    message: text::Text,
    now: i64,
)
    requires
        store::orderly(e.realm),
        e.store is Some,
        e.store->0.faithful,
        e.persisted(after, message, now, None),
    ensures
        ({
            let back = after.store->0.contents.realm();
            let commit = after.store->0.contents.log.last();
            &&& commit.message == message
            &&& commit.time == now
            &&& commit.held.rooms == back.world
            &&& commit.held.mobs == e.realm.mobs
            &&& commit.held.rules == e.realm.rules
            &&& commit.held.operators == e.realm.operators
            &&& back.mobs == e.realm.mobs
            &&& back.rules == e.realm.rules
            &&& back.operators == e.realm.operators
            &&& e.realm.world.submap_of(back.world)
            &&& e.store->0.contents.rooms.dom().subset_of(e.realm.world.dom()) ==> back.world
                == e.realm.world
        }),
{
    store::lemma_load_gives_back_what_was_saved(
        e.store->0.contents,
        e.realm,
        message,
        now,
    );
}

/// Without a store a checkpoint succeeds and does nothing.
pub proof fn lemma_checkpoint_without_store_is_a_no_op(
    e: EngineView,
    after: EngineView,
    message: text::Text,
    now: i64,
    failed: Option<StoreError>,
)
    requires
        e.store is None,
        e.persisted(after, message, now, failed),
    ensures
        failed is None,
        after == e,
{
}

/// A new engine has the realm it is given, and nothing else: nobody is connected, no
/// number has been given out, the tick is zero, nothing waits, and there is no store and
/// no snapshot interval.
pub proof fn lemma_a_fresh_engine(realm: RealmView, time: spec_fn(i64) -> bool)
    ensures
        ({
            let e = EngineView::fresh(realm, time);
            &&& e.realm == realm
            &&& e.time == time
            &&& e.sessions.dom() == Set::<u64>::empty()
            &&& e.next_session == 0
            &&& e.next_anon == 0
            &&& e.tick == 0
            &&& e.drain_count == 0
            &&& e.queue.len() == 0
            &&& e.limiter.dom() == Set::<Bucket>::empty()
            &&& e.store is None
            &&& e.snapshot_interval is None
        }),
{
}

/// A checkpoint that succeeds on a faithful store leaves one more commit, with this
/// message and time, that holds the realm's mobs, rules and operators as they are and
/// every room of it; the engine keeps all but its store as it was, whether it succeeds
/// or not.
pub proof fn lemma_what_a_checkpoint_keeps(
    e: EngineView,
    after: EngineView,
    message: text::Text,
    now: i64,
    failed: Option<StoreError>,
)
    requires
        store::orderly(e.realm),
        e.persisted(after, message, now, failed),
    ensures
        after == (EngineView { store: after.store, ..e }),
        after.store is Some <==> e.store is Some,
        e.store is Some && e.store->0.unfailing ==> failed is None,
        e.store is Some && e.store->0.faithful && failed is None ==> {
            let (was, is) = (e.store->0.contents, after.store->0.contents);
            let commit = is.log.last();
            &&& is.log.len() == was.log.len() + 1
            &&& is.log.drop_last() == was.log
            &&& commit.message == message
            &&& commit.time == now
            &&& commit.held.mobs == e.realm.mobs
            &&& commit.held.rules == e.realm.rules
            &&& commit.held.operators == e.realm.operators
            &&& forall|id: text::Text| #[trigger]
                e.realm.world.contains_key(id) ==> commit.held.rooms.contains_key(id)
                    && commit.held.rooms[id] == e.realm.world[id]
            &&& is.mobs == e.realm.mobs
            &&& is.rules == e.realm.rules
            &&& is.operators == e.realm.operators
            &&& is.rooms == commit.held.rooms
        },
{
    if e.store is Some {
        let was = e.store->0.contents;
        store::lemma_saved_holds_the_realm(was, e.realm);
        store::lemma_commits_record_what_is_held(was.saved(e.realm), message, now);
    }
}

/// A snapshot is taken once the interval has passed since the last one, and no sooner;
/// without an interval there is none. One that is taken is a checkpoint with the message
/// `interval snapshot`, and the wait starts anew; where the store fails, it does not.
pub proof fn lemma_what_a_snapshot_does(
    e: EngineView,
    after: EngineView,
    now: i64,
    r: Result<bool, StoreError>,
)
    requires
        e.snapshotted(after, now, r),
    ensures
        ({
            let due = e.snapshot_interval is Some && now - e.last_snapshot
                >= e.snapshot_interval->0;
            let kept = EngineView { last_snapshot: e.last_snapshot, ..after };
            &&& !due ==> r == Ok::<bool, StoreError>(false) && after == e
            &&& due ==> e.persisted(kept, "interval snapshot"@, now, store::failure(r))
            &&& due && r is Ok ==> r->Ok_0 == (e.store is Some) && after.last_snapshot == now
            &&& due && r is Err ==> after.last_snapshot == e.last_snapshot
        }),
{
}

/// A room that was dug is kept: a faithful store that did not fail has one more commit,
/// made at a time that the clock reads, which says so and holds the new room.
pub proof fn lemma_dug_rooms_are_kept(
    e: EngineView,
    after: EngineView,
    session: u64,
    direction: Direction,
    id: text::Text,
    name: text::Text,
    description: text::Text,
)
    requires
        e.digging(after, session, direction, id, name, description, Dug::Done(id)),
        store::orderly(e.realm),
        e.store is Some,
        e.store->0.faithful,
    ensures
        ({
            let commit = after.store->0.contents.log.last();
            &&& after.store is Some
            &&& after.store->0.contents.log.len() == e.store->0.contents.log.len() + 1
            &&& commit.message == "dig "@ + id
            &&& (e.time)(commit.time)
            &&& commit.held.rooms.contains_key(id)
            &&& commit.held.rooms[id] == after.realm.world[id]
            &&& commit.held.mobs == e.realm.mobs
        }),
{
    let from = e.digs_in(session);
    let realm = e.realm.dug(from, direction, id, name, description);
    let now = choose|now: i64|
        #[trigger] (e.time)(now) && e.with_realm(realm).persisted(after, "dig "@ + id, now, None);
    assert(realm.world.dom() =~= if e.realm.world.contains_key(from) || from == id {
        e.realm.world.dom().insert(id).insert(from)
    } else {
        e.realm.world.dom().insert(id)
    });
    assert forall|k: text::Text| #[trigger] realm.world.contains_key(k) implies realm.world[k].id
        == k by {
        if k != id {
            assert(e.realm.world.contains_key(k));
        }
    }
    assert forall|k: text::Text| #[trigger] realm.mobs.contains_key(k) implies realm.mobs[k].id
        == k by {
        assert(e.realm.mobs.contains_key(k));
    }
    lemma_what_a_checkpoint_keeps(e.with_realm(realm), after, "dig "@ + id, now, None);
    assert(realm.world.contains_key(id));
}

/// The exits that digging makes. Where a session digs in a direction from the room where
/// its actor stands, that room then leads there in that direction, with its other exits
/// as they were, and the new room leads back, south where it was dug to the north, down
/// where it was dug upwards, and so on, and nowhere else.
pub proof fn lemma_the_exits_that_are_dug(
    e: EngineView,
    after: EngineView,
    session: u64,
    direction: Direction,
    id: text::Text,
    name: text::Text,
    description: text::Text,
    outcome: Dug,
)
    requires
        e.digging(after, session, direction, id, name, description, outcome),
        !(outcome is Refused),
    ensures
        ({
            let from = e.realm.mobs[e.sessions[session].actor].location;
            let back = match direction {
                Direction::North => Direction::South,
                Direction::South => Direction::North,
                Direction::East => Direction::West,
                Direction::West => Direction::East,
                Direction::Up => Direction::Down,
                Direction::Down => Direction::Up,
            };
            &&& after.realm.world.contains_key(id)
            &&& e.realm.world.contains_key(from) ==> {
                &&& after.realm.world.contains_key(from)
                &&& after.realm.world[from].exits == e.realm.world[from].exits.insert(direction, id)
                &&& after.realm.world[id].exits == Map::<Direction, text::Text>::empty().insert(
                    back,
                    from,
                )
            }
        }),
{
    lemma_what_digging_does(
        e,
        after,
        session,
        direction,
        id,
        name,
        description,
        outcome,
    );
    let from = e.realm.mobs[e.sessions[session].actor].location;
    let realm = e.realm.dug(from, direction, id, name, description);
    assert(e.digs_in(session) == from);
    assert(after.realm == realm);
}

} // verus!
