//! What happens turn by turn while a queue is drained, and what the sessions get.

use vstd::prelude::*;

use crate::engine::delivery::{self, Message};
use crate::engine::laws;
use crate::engine::model::{self, EngineView, Progress};
use crate::fabric::coalesce;
use crate::fabric::dispatch;
use crate::fabric::intent::IntentView;
use crate::fabric::operator::{self, IntentClass, OperatorView, PresentationKind, Scope};
use crate::fabric::rate_limit::{self, Admitted, Asking, Bucket};
use crate::presentation::{NodeView, Role, SpanView};
use crate::seqs;
use crate::session::SessionView;
use crate::text;

verus! {

// ---------------------------------------------------------------------------
// Rate limits
// ---------------------------------------------------------------------------

/// Whose intent it is.
pub open spec fn whose(intent: IntentView) -> text::Text {
    match intent {
        IntentView::Move { actor, .. } => actor,
        IntentView::Look { actor } => actor,
    }
}

/// Whether the operator limits intents like this one, and counts it in this bucket
/// when it stands at this place: all together, or each actor apart.
pub open spec fn tallies(op: OperatorView, at: int, intent: IntentView, b: Bucket) -> bool {
    match op {
        OperatorView::RateLimit { on, scope, .. } => {
            &&& match on {
                IntentClass::Move => intent is Move,
                IntentClass::Look => intent is Look,
            }
            &&& b.0 == at
            &&& match scope {
                Scope::Global => b.1 is None,
                Scope::PerActor => b.1 == Some(whose(intent)),
            }
        },
        OperatorView::Coalesce { .. } => false,
    }
}

/// Whether the operator at this place holds the intent back: fewer ticks than its
/// window have passed since it last let one through that it counts with this one.
pub open spec fn holds_back(
    last: Admitted,
    ops: Seq<OperatorView>,
    intent: IntentView,
    tick: int,
    at: int,
) -> bool {
    &&& 0 <= at < ops.len()
    &&& exists|b: Bucket| #[trigger]
        last.contains_key(b) && tallies(ops[at], at, intent, b) && tick < last[b]
            + ops[at]->per_ticks
}

/// Whether the intent was noted as let through at this tick, by every operator that
/// counts it and by no other.
pub open spec fn noted(
    last: Admitted,
    ops: Seq<OperatorView>,
    intent: IntentView,
    tick: int,
    now: Admitted,
) -> bool {
    forall|b: Bucket|
        #![trigger now.contains_key(b)]
        #![trigger now[b]]
        if 0 <= b.0 < ops.len() && tallies(ops[b.0], b.0, intent, b) {
            now.contains_key(b) && now[b] == tick
        } else {
            now.contains_key(b) == last.contains_key(b) && (last.contains_key(b) ==> now[b]
                == last[b])
        }
}

/// What is said to whoever an operator holds back: its own text, or else the
/// realm's.
pub open spec fn refused_with(op: OperatorView, default: text::Text) -> NodeView {
    let t = if op->deny is Some {
        op->deny->0
    } else {
        default
    };
    NodeView::Denied(seq![SpanView { text: t, role: Role::Default }])
}

/// Whether one turn leads from `p` to `q`. An intent that an operator holds back
/// changes nothing; its actor alone is told, by the first operator that holds it
/// back. Any other intent is dispatched and noted.
pub open spec fn turns(p: Progress, intent: IntentView, tick: int, q: Progress) -> bool {
    let ops = p.realm.operators;
    ||| exists|at: int|
        #![trigger ops[at]]
        holds_back(p.limiter, ops, intent, tick, at) && (forall|j: int|
            0 <= j < at ==> !#[trigger] holds_back(p.limiter, ops, intent, tick, j)) && q.realm
            == p.realm && q.limiter == p.limiter && q.batch == p.batch.push(
            (whose(intent), refused_with(ops[at], p.realm.rate_limit_message)),
        )
    ||| {
        &&& forall|j: int|
            0 <= j < ops.len() ==> !#[trigger] holds_back(p.limiter, ops, intent, tick, j)
        &&& q.realm == dispatch::dispatched(p.realm, intent).0
        &&& q.batch == p.batch + dispatch::dispatched(p.realm, intent).1.messages
        &&& noted(p.limiter, ops, intent, tick, q.limiter)
    }
}

proof fn lemma_holding_back(
    last: Admitted,
    ops: Seq<OperatorView>,
    intent: IntentView,
    tick: int,
    at: int,
)
    requires
        0 <= at < ops.len(),
    ensures
        holds_back(last, ops, intent, tick, at) <==> rate_limit::drops(
            last,
            ops,
            (Asking { class: operator::class_of(intent), actor: intent.actor(), tick }),
            at,
        ),
{
    let b = rate_limit::bucket(ops[at], at, intent.actor());
    if last.contains_key(b) {
        assert(rate_limit::limits(ops[at], operator::class_of(intent)) <==> tallies(
            ops[at],
            at,
            intent,
            b,
        ));
    }
    if holds_back(last, ops, intent, tick, at) {
        let x = choose|x: Bucket| #[trigger]
            last.contains_key(x) && tallies(ops[at], at, intent, x) && tick < last[x]
                + ops[at]->per_ticks;
        assert(x == b);
    }
}

/// A turn is what the rules of the realm make of it.
pub proof fn lemma_turn_of_an_intent(p: Progress, intent: IntentView, tick: int)
    requires
        0 <= tick <= u64::MAX,
    ensures
        turns(p, intent, tick, p.worked(intent, tick)),
{
    let ops = p.realm.operators;
    let ask = Asking { class: operator::class_of(intent), actor: intent.actor(), tick };
    let q = p.worked(intent, tick);
    assert forall|j: int| 0 <= j < ops.len() implies #[trigger] holds_back(
        p.limiter,
        ops,
        intent,
        tick,
        j,
    ) == rate_limit::drops(p.limiter, ops, ask, j) by {
        lemma_holding_back(p.limiter, ops, intent, tick, j);
    }
    rate_limit::lemma_refusal(p.limiter, ops, ask, 0);
    match rate_limit::refusal(p.limiter, ops, ask, 0) {
        Some(at) => {
            assert(holds_back(p.limiter, ops, intent, tick, at));
            assert(rate_limit::denial(ops[at]) == ops[at]->deny);
            assert(q.batch =~= p.batch.push(
                (whose(intent), refused_with(ops[at], p.realm.rate_limit_message)),
            ));
        },
        None => {
            assert forall|b: Bucket|
                #![trigger q.limiter.contains_key(b)]
                #![trigger q.limiter[b]]
                if 0 <= b.0 < ops.len() && tallies(ops[b.0], b.0, intent, b) {
                    q.limiter.contains_key(b) && q.limiter[b] == tick
                } else {
                    q.limiter.contains_key(b) == p.limiter.contains_key(b) && (
                    p.limiter.contains_key(b) ==> q.limiter[b] == p.limiter[b])
                } by {
                assert(rate_limit::counts(ops, ask, b) <==> 0 <= b.0 < ops.len() && tallies(
                    ops[b.0],
                    b.0,
                    intent,
                    b,
                ));
            }
            assert(noted(p.limiter, ops, intent, tick, q.limiter));
        },
    }
}

// ---------------------------------------------------------------------------
// What the sessions get
// ---------------------------------------------------------------------------

/// Whether the node is of this kind.
pub open spec fn is_of(node: NodeView, kind: PresentationKind) -> bool {
    match kind {
        PresentationKind::RoomName => node is RoomName,
        PresentationKind::RoomDescription => node is RoomDescription,
        PresentationKind::Exits => node is Exits,
        PresentationKind::Occupants => node is Occupants,
        PresentationKind::Line => node is Line,
        PresentationKind::Denied => node is Denied,
        PresentationKind::Prompt => node is Prompt,
    }
}

/// Whether some Coalesce operator, anywhere among the operators, lists the kind.
pub open spec fn listed(ops: Seq<OperatorView>, kind: PresentationKind) -> bool {
    exists|i: int|
        #![trigger ops[i]]
        0 <= i < ops.len() && ops[i] is Coalesce && ops[i]->Coalesce_on.contains(kind)
}

/// Whether a later node of a listed kind takes the place of the `i`-th.
pub open spec fn superseded(nodes: Seq<NodeView>, ops: Seq<OperatorView>, i: int) -> bool {
    exists|kind: PresentationKind, j: int|
        #![trigger is_of(nodes[j], kind)]
        listed(ops, kind) && is_of(nodes[i], kind) && i < j < nodes.len() && is_of(nodes[j], kind)
}

/// Whether `left` is what is left of the nodes, in their order, without those that a
/// later node of a listed kind takes the place of.
pub open spec fn is_left(left: Seq<NodeView>, nodes: Seq<NodeView>, ops: Seq<OperatorView>) -> bool {
    exists|at: Seq<int>| #[trigger] stands_at(left, nodes, ops, at)
}

/// The same, where `at` says at which place of the nodes each one stood.
pub open spec fn stands_at(
    left: Seq<NodeView>,
    nodes: Seq<NodeView>,
    ops: Seq<OperatorView>,
    at: Seq<int>,
) -> bool {
    &&& at.len() == left.len()
    &&& forall|a: int, b: int|
        #![trigger at[a], at[b]]
        0 <= a < b < at.len() ==> at[a] < at[b]
    &&& forall|a: int|
        0 <= a < at.len() ==> 0 <= #[trigger] at[a] < nodes.len() && left[a] == nodes[at[a]]
    &&& forall|i: int|
        0 <= i < nodes.len() ==> (#[trigger] at.contains(i) <==> !superseded(nodes, ops, i))
}

/// Whether a session goes from `was` to `is` when the messages are handed out:
/// behind what was pending stands what is left of the messages to its actor.
pub open spec fn handed(
    was: SessionView,
    is: SessionView,
    messages: Seq<Message>,
    ops: Seq<OperatorView>,
) -> bool {
    let mine = messages.filter(|m: Message| m.0 == was.actor).map_values(|m: Message| m.1);
    &&& is.actor == was.actor
    &&& is.persistent == was.persistent
    &&& was.outbox.len() <= is.outbox.len()
    &&& is.outbox.take(was.outbox.len() as int) == was.outbox
    &&& is_left(is.outbox.skip(was.outbox.len() as int), mine, ops)
}

/// The kinds that are collapsed are those that any Coalesce operator lists.
pub proof fn lemma_which_kinds_collapse(ops: Seq<OperatorView>, kind: PresentationKind)
    ensures
        model::collapsing(ops).contains(kind) <==> exists|i: int|
            #![trigger ops[i]]
            0 <= i < ops.len() && ops[i] is Coalesce && ops[i]->Coalesce_on.contains(kind),
    decreases ops.len(),
{
    if ops.len() > 0 {
        let front = ops.drop_last();
        let last = ops.last();
        let before = model::collapsing(front);
        let more = model::kinds_of(last);
        lemma_which_kinds_collapse(front, kind);
        if (before + more).contains(kind) {
            let k = choose|k: int| 0 <= k < (before + more).len() && (before + more)[k] == kind;
            if k < before.len() {
                assert(before[k] == kind);
                let i = choose|i: int|
                    #![trigger front[i]]
                    0 <= i < front.len() && front[i] is Coalesce && front[i]->Coalesce_on.contains(
                        kind,
                    );
                assert(ops[i] == front[i]);
            } else {
                assert(more[k - before.len()] == kind);
                assert(ops[ops.len() - 1] == last);
            }
        }
        if listed(ops, kind) {
            let i = choose|i: int|
                #![trigger ops[i]]
                0 <= i < ops.len() && ops[i] is Coalesce && ops[i]->Coalesce_on.contains(kind);
            if i < front.len() {
                assert(front[i] == ops[i]);
                let k = choose|k: int| 0 <= k < before.len() && before[k] == kind;
                assert((before + more)[k] == kind);
            } else {
                let k = choose|k: int| 0 <= k < more.len() && more[k] == kind;
                assert((before + more)[before.len() + k] == kind);
            }
        }
    }
}

proof fn lemma_superseding(
    nodes: Seq<NodeView>,
    ops: Seq<OperatorView>,
    kinds: Seq<PresentationKind>,
    i: int,
)
    requires
        0 <= i < nodes.len(),
        forall|kind: PresentationKind| #[trigger] kinds.contains(kind) <==> listed(ops, kind),
    ensures
        coalesce::survives(nodes, kinds)(i) <==> !superseded(nodes, ops, i),
{
    let kind = operator::kind_of(nodes[i]);
    assert(is_of(nodes[i], kind));
    if superseded(nodes, ops, i) {
        let (k, j) = choose|k: PresentationKind, j: int|
            #![trigger is_of(nodes[j], k)]
            listed(ops, k) && is_of(nodes[i], k) && i < j < nodes.len() && is_of(nodes[j], k);
        assert(k == kind);
        assert(kinds.contains(k));
        assert(operator::kind_of(nodes[j]) == kind);
    }
    if !coalesce::survives(nodes, kinds)(i) {
        let j = choose|j: int|
            i < j < nodes.len() && operator::kind_of(#[trigger] nodes[j]) == kind;
        assert(is_of(nodes[j], kind));
    }
}

proof fn lemma_collapsed(
    nodes: Seq<NodeView>,
    ops: Seq<OperatorView>,
    kinds: Seq<PresentationKind>,
)
    requires
        forall|kind: PresentationKind| #[trigger] kinds.contains(kind) <==> listed(ops, kind),
    ensures
        is_left(coalesce::coalesced(nodes, kinds), nodes, ops),
{
    let left = coalesce::coalesced(nodes, kinds);
    let at = coalesce::kept(nodes, kinds);
    let p = coalesce::survives(nodes, kinds);
    let all = coalesce::positions(nodes.len());
    coalesce::lemma_kept(nodes.len(), p);
    assert forall|i: int| 0 <= i < nodes.len() implies (#[trigger] at.contains(i) <==> !superseded(
        nodes,
        ops,
        i,
    )) by {
        seqs::lemma_filter_contains(all, p, i);
        assert(all[i] == i);
        lemma_superseding(nodes, ops, kinds, i);
    }
    assert(stands_at(left, nodes, ops, at));
}

proof fn lemma_handing_out(
    was: SessionView,
    messages: Seq<Message>,
    ops: Seq<OperatorView>,
    kinds: Seq<PresentationKind>,
)
    requires
        forall|kind: PresentationKind| #[trigger] kinds.contains(kind) <==> listed(ops, kind),
    ensures
        handed(was, delivery::received(messages, kinds)(was), messages, ops),
{
    let is = delivery::received(messages, kinds)(was);
    let to = |m: Message| m.0 == was.actor;
    let said = |m: Message| m.1;
    assert(delivery::directed_to(was.actor) =~= to);
    assert(delivery::content() =~= said);
    let mine = messages.filter(to).map_values(said);
    assert(mine == delivery::nodes_for(messages, was.actor));
    lemma_collapsed(mine, ops, kinds);
    assert(is.outbox.take(was.outbox.len() as int) =~= was.outbox);
    assert(is.outbox.skip(was.outbox.len() as int) =~= coalesce::coalesced(mine, kinds));
}

// ---------------------------------------------------------------------------
// Laws
// ---------------------------------------------------------------------------

/// Whether a tick goes through these stages: it starts with the realm and the rate
/// limits as they are, and takes the queued intents in turn.
pub open spec fn goes_through(e: EngineView, stages: Seq<Progress>) -> bool {
    &&& stages.len() == e.queue.len() + 1
    &&& stages[0] == Progress { realm: e.realm, limiter: e.limiter, batch: seq![] }
    &&& forall|k: int|
        #![trigger e.queue[k]]
        0 <= k < e.queue.len() ==> turns(stages[k], e.queue[k].1, e.tick + 1, stages[k + 1])
}

/// A tick takes the queued intents in turn, each exactly once, and then hands out to
/// every session what was said to its actor, collapsed. It opens and closes no
/// session, and leaves all else of the engine alone.
pub proof fn lemma_a_tick_takes_turns(e: EngineView)
    requires
        e.tick < u64::MAX,
        e.drain_count < u64::MAX,
    ensures
        exists|stages: Seq<Progress>|
            {
                let after = e.ticked();
                let done = stages.last();
                &&& #[trigger] goes_through(e, stages)
                &&& after == EngineView {
                    realm: done.realm,
                    limiter: done.limiter,
                    queue: seq![],
                    tick: (e.tick + 1) as u64,
                    drain_count: (e.drain_count + 1) as u64,
                    sessions: after.sessions,
                    ..e
                }
                &&& after.sessions.dom() == e.sessions.dom()
                &&& forall|id: u64| #[trigger]
                    e.sessions.contains_key(id) ==> handed(
                        e.sessions[id],
                        after.sessions[id],
                        done.batch,
                        e.realm.operators,
                    )
            },
{
    let now = EngineView { tick: (e.tick + 1) as u64, ..e };
    let from = Progress { realm: e.realm, limiter: e.limiter, batch: seq![] };
    let tick = now.tick as int;
    let n = e.queue.len();
    let stages = Seq::new(n + 1, |k: int| laws::at_turn(from, e.queue, tick, k));
    assert(e.queue.take(0) =~= seq![]);
    assert(stages[0] == from);
    assert forall|k: int| #![trigger e.queue[k]] 0 <= k < n implies turns(
        stages[k],
        e.queue[k].1,
        e.tick + 1,
        stages[k + 1],
    ) by {
        laws::lemma_turn(from, e.queue, tick, k);
        lemma_turn_of_an_intent(stages[k], e.queue[k].1, tick);
    }
    assert(e.queue.take(n as int) =~= e.queue);
    let done = stages.last();
    assert(done == now.progress());
    laws::lemma_work_moves_only_mobs(from, e.queue, tick);
    let ops = e.realm.operators;
    let kinds = model::collapsing(ops);
    let after = e.ticked();
    assert(after.sessions.dom() =~= e.sessions.dom());
    assert forall|kind: PresentationKind| #[trigger] kinds.contains(kind) <==> listed(ops, kind) by {
        lemma_which_kinds_collapse(ops, kind);
    }
    assert forall|id: u64| #[trigger] e.sessions.contains_key(id) implies handed(
        e.sessions[id],
        after.sessions[id],
        done.batch,
        ops,
    ) by {
        lemma_handing_out(e.sessions[id], done.batch, ops, kinds);
        assert(after.sessions[id] == delivery::received(done.batch, kinds)(e.sessions[id]));
    }
    assert(goes_through(e, stages));
}

/// Of a kind that any Coalesce operator lists, wherever it stands among the
/// operators, a tick appends at most one node to what is pending for a session.
pub proof fn lemma_a_tick_appends_one_of_a_listed_kind(
    e: EngineView,
    id: u64,
    op: int,
    kind: PresentationKind,
    a: int,
    b: int,
)
    requires
        e.tick < u64::MAX,
        e.drain_count < u64::MAX,
        e.sessions.contains_key(id),
        0 <= op < e.realm.operators.len(),
        e.realm.operators[op] is Coalesce,
        e.realm.operators[op]->Coalesce_on.contains(kind),
        e.sessions[id].outbox.len() <= a < e.ticked().sessions[id].outbox.len(),
        e.sessions[id].outbox.len() <= b < e.ticked().sessions[id].outbox.len(),
        is_of(e.ticked().sessions[id].outbox[a], kind),
        is_of(e.ticked().sessions[id].outbox[b], kind),
    ensures
        a == b,
{
    lemma_a_tick_takes_turns(e);
    let after = e.ticked();
    let ops = e.realm.operators;
    let was = e.sessions[id];
    let is = after.sessions[id];
    let n = was.outbox.len() as int;
    let stages = choose|stages: Seq<Progress>|
        {
            &&& #[trigger] goes_through(e, stages)
            &&& forall|id: u64| #[trigger]
                e.sessions.contains_key(id) ==> handed(
                    e.sessions[id],
                    after.sessions[id],
                    stages.last().batch,
                    ops,
                )
        };
    assert(handed(was, is, stages.last().batch, ops));
    let nodes = stages.last().batch.filter(|m: Message| m.0 == was.actor).map_values(
        |m: Message| m.1,
    );
    let left = is.outbox.skip(n);
    let at = choose|at: Seq<int>| #[trigger] stands_at(left, nodes, ops, at);
    assert(ops[op] is Coalesce);
    assert(listed(ops, kind));
    let (x, y) = (a - n, b - n);
    assert(left[x] == is.outbox[a] && left[y] == is.outbox[b]);
    assert(left[x] == nodes[at[x]] && left[y] == nodes[at[y]]);
    assert(at.contains(at[x]) && at.contains(at[y]));
    assert(is_of(nodes[at[x]], kind) && is_of(nodes[at[y]], kind));
    if x < y {
        assert(at[x] < at[y]);
        assert(superseded(nodes, ops, at[x]));
    } else if y < x {
        assert(at[y] < at[x]);
        assert(superseded(nodes, ops, at[y]));
    }
}

/// Submitting hands an authorized intent to dispatch at once and delivers all that
/// is said, nothing collapsed; it changes nothing else. An intent of another actor
/// than the session's, or from no session, changes nothing.
pub proof fn lemma_submitting(e: EngineView, id: u64, intent: IntentView)
    ensures
        ({
            let after = e.submitted(id, intent);
            let (realm, out) = dispatch::dispatched(e.realm, intent);
            if e.sessions.contains_key(id) && e.sessions[id].actor == whose(intent) {
                &&& after == EngineView { realm, sessions: after.sessions, ..e }
                &&& after.sessions.dom() == e.sessions.dom()
                &&& forall|s: u64| #[trigger]
                    e.sessions.contains_key(s) ==> after.sessions[s] == (SessionView {
                        outbox: e.sessions[s].outbox + out.messages.filter(
                            |m: Message| m.0 == e.sessions[s].actor,
                        ).map_values(|m: Message| m.1),
                        ..e.sessions[s]
                    })
            } else {
                after == e
            }
        }),
{
    let after = e.submitted(id, intent);
    let (realm, out) = dispatch::dispatched(e.realm, intent);
    if e.authorized(id, intent) {
        assert(after.sessions.dom() =~= e.sessions.dom());
        assert forall|s: u64| #[trigger] e.sessions.contains_key(s) implies after.sessions[s] == (
        SessionView {
            outbox: e.sessions[s].outbox + out.messages.filter(
                |m: Message| m.0 == e.sessions[s].actor,
            ).map_values(|m: Message| m.1),
            ..e.sessions[s]
        }) by {
            let was = e.sessions[s];
            assert(delivery::directed_to(was.actor) =~= (|m: Message| m.0 == was.actor));
            assert(delivery::content() =~= (|m: Message| m.1));
            let mine = delivery::nodes_for(out.messages, was.actor);
            coalesce::lemma_nothing_listed_nothing_collapses(mine, seq![]);
            assert(after.sessions[s] == delivery::received(out.messages, seq![])(was));
        }
    }
}

/// Enqueueing puts an authorized intent at the end of the queue and does nothing
/// else; any other intent changes nothing.
pub proof fn lemma_enqueueing(e: EngineView, id: u64, intent: IntentView)
    ensures
        e.enqueued(id, intent) == if e.sessions.contains_key(id) && e.sessions[id].actor == whose(
            intent,
        ) {
            EngineView { queue: e.queue.push((id, intent)), ..e }
        } else {
            e
        },
{
}

/// Polling gives all that is pending for the session and leaves nothing of it; the
/// session, its actor and all else stay.
pub proof fn lemma_polling(e: EngineView, id: u64)
    ensures
        e.sessions.contains_key(id) ==> e.pending(id) == e.sessions[id].outbox,
        !e.sessions.contains_key(id) ==> e.pending(id).len() == 0 && e.polled(id) == e,
        e.polled(id) == (EngineView { sessions: e.polled(id).sessions, ..e }),
        e.polled(id).sessions.dom() == e.sessions.dom(),
        forall|s: u64| #[trigger]
            e.sessions.contains_key(s) ==> e.polled(id).sessions[s].actor == e.sessions[s].actor
                && e.polled(id).sessions[s].persistent == e.sessions[s].persistent
                && e.polled(id).sessions[s].outbox == if s == id {
                Seq::<NodeView>::empty()
            } else {
                e.sessions[s].outbox
            },
{
    assert(e.polled(id).sessions.dom() =~= e.sessions.dom());
}

} // verus!
