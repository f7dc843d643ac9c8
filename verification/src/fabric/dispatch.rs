//! One intent, from proposal to what everybody sees.

use vstd::prelude::*;

use crate::direction::Direction;
use crate::fabric::gather::{self, gather, Candidate, CandidateView};
use crate::fabric::handler::{Effect, EffectView};
use crate::fabric::intent::{Event, EventView, Intent, IntentView};
use crate::fabric::predicate::{self, Party};
use crate::fabric::resolve::{self, blockers, resolve, salient, traversers, Decision, DecisionView};
use crate::id::EntityId;
use crate::mob::{Mob, MobView};
use crate::presentation::{self, plain_text, NodeView, PresentationNode, Span};
use crate::realm::{Realm, RealmView};
use crate::seqs;
use crate::sorted_map::{self, clone_all, Ordered};
use crate::text;

verus! {

/// The result of dispatching one intent: committed events + directed messages.
#[derive(Debug, PartialEq)]
pub struct Dispatch {
    pub events: Vec<Event>,
    pub messages: Vec<(EntityId, PresentationNode)>,
}

pub struct DispatchView {
    pub events: Seq<EventView>,
    pub messages: Seq<(text::Text, NodeView)>,
}

impl View for Dispatch {
    type V = DispatchView;

    open spec fn view(&self) -> DispatchView {
        DispatchView { events: text::views(self.events@), messages: text::views(self.messages@) }
    }
}

impl DispatchView {
    pub open spec fn nothing() -> DispatchView {
        DispatchView { events: seq![], messages: seq![] }
    }
}

impl Default for Dispatch {
    fn default() -> (r: Dispatch)
        ensures
            r@ == DispatchView::nothing(),
    {
        let r = Dispatch { events: Vec::new(), messages: Vec::new() };
        assert(r@.events =~= seq![]);
        assert(r@.messages =~= seq![]);
        r
    }
}

impl Clone for Dispatch {
    fn clone(&self) -> (r: Dispatch)
        ensures
            r@ == self@,
    {
        let mut messages: Vec<(EntityId, PresentationNode)> = Vec::new();
        for i in 0..self.messages.len()
            invariant
                messages@.len() == i,
                forall|j: int| 0 <= j < i ==> (#[trigger] messages@[j])@ == self.messages@[j]@,
        {
            let (to, node) = &self.messages[i];
            messages.push((to.clone(), node.clone()));
        }
        assert(text::views(messages@) =~= text::views(self.messages@));
        Dispatch { events: clone_all(&self.events), messages }
    }
}

// ---------------------------------------------------------------------------
// Effects
// ---------------------------------------------------------------------------

/// Whether an effect has somebody to reach.
pub open spec fn reaches(self_id: Option<text::Text>, actor: text::Text) -> spec_fn(
    EffectView,
) -> bool {
    |e: EffectView|
        match e {
            EffectView::Narrate(party, _) => predicate::party_id(party, self_id, actor) is Some,
        }
}

/// The message that an effect sends.
pub open spec fn message(self_id: Option<text::Text>, actor: text::Text) -> spec_fn(EffectView) -> (
    text::Text,
    NodeView,
) {
    |e: EffectView|
        match e {
            EffectView::Narrate(party, t) => (
                predicate::party_id(party, self_id, actor)->0,
                presentation::plain_line(t),
            ),
        }
}

/// The messages of a candidate's effects, in order.
pub open spec fn narration(c: CandidateView, actor: text::Text) -> Seq<(text::Text, NodeView)> {
    c.effects.filter(reaches(c.self_id, actor)).map_values(message(c.self_id, actor))
}

/// What the most salient of the candidates has to say.
pub open spec fn spoken(s: Seq<CandidateView>, actor: text::Text) -> Seq<(text::Text, NodeView)> {
    match resolve::most_salient(s) {
        Some(c) => narration(c, actor),
        None => seq![],
    }
}

/// Resolve a Party to a concrete recipient id for an effect.
fn recipient(party: Party, self_id: Option<&EntityId>, actor: &EntityId) -> (r: Option<EntityId>)
    ensures
        text::opt_view(r) == predicate::party_id(party, text::opt_view(self_id), actor@),
{
    match party {
        Party::Actor => Some(actor.clone()),
        Party::SelfMob => match self_id {
            Some(id) => Some(id.clone()),
            None => None,
        },
    }
}

/// Turn a salient candidate's effects into directed messages.
fn apply_effects(
    cand: &Candidate,
    actor: &EntityId,
    out: &mut Vec<(EntityId, PresentationNode)>,
)
    ensures
        text::views(final(out)@) == text::views(old(out)@) + narration(cand@, actor@),
{
    let ghost start = text::views(out@);
    let ghost all = text::views(cand.effects@);
    let ghost p = reaches(cand@.self_id, actor@);
    let ghost f = message(cand@.self_id, actor@);
    proof {
        seqs::lemma_filter_empty(all.take(0), p);
        assert(start =~= start + all.take(0).filter(p).map_values(f));
    }
    for i in 0..cand.effects.len()
        invariant
            all == text::views(cand.effects@),
            p == reaches(cand@.self_id, actor@),
            f == message(cand@.self_id, actor@),
            text::views(out@) == start + all.take(i as int).filter(p).map_values(f),
    {
        let ghost seen = all.take(i as int);
        let ghost e = all[i as int];
        proof {
            assert(all.take(i + 1) =~= seen.push(e));
            seqs::lemma_filter_push(seen, p, e);
        }
        match &cand.effects[i] {
            Effect::Narrate(party, t) => {
                if let Some(to) = recipient(*party, cand.self_id.as_ref(), actor) {
                    let ghost before = text::views(out@);
                    out.push((to, PresentationNode::Line(plain_text(t.as_str()))));
                    proof {
                        assert(out@.last()@ == f(e));
                        assert(text::views(out@) =~= before.push(f(e)));
                        assert(seen.filter(p).push(e).map_values(f) =~= seen.filter(p).map_values(
                            f,
                        ).push(f(e)));
                        assert(text::views(out@) =~= start + seen.filter(p).push(e).map_values(f));
                    }
                }
            },
        }
    }
    assert(all.take(cand.effects@.len() as int) =~= all);
}

// ---------------------------------------------------------------------------
// The view of a room
// ---------------------------------------------------------------------------

/// The names of the mobs in `room`, the viewer left out, in increasing order.
pub open spec fn company(realm: RealmView, room: text::Text, viewer: text::Text) -> Seq<
    text::Text,
> {
    text::sorted(
        realm.present(room).filter(|m: MobView| m.id != viewer).map_values(|m: MobView| m.name),
    )
}

/// What `viewer` sees of `room`; nothing where there is no such room.
pub open spec fn room_view(realm: RealmView, room: text::Text, viewer: text::Text) -> Seq<
    NodeView,
> {
    if realm.world.contains_key(room) {
        let r = realm.world[room];
        seq![
            NodeView::RoomName(r.name),
            NodeView::RoomDescription(seq![presentation::plain_span(r.description)]),
            NodeView::Exits(sorted_map::in_order::<Direction, text::Text>(r.exits)),
            NodeView::Occupants(
                company(realm, room, viewer).map_values(|n: text::Text| presentation::actor_span(n)),
            ),
        ]
    } else {
        seq![]
    }
}

/// The spans that name those in `room` besides `viewer`.
fn occupants(realm: &Realm, room_id: &EntityId, viewer: &EntityId) -> (r: Vec<Span>)
    ensures
        text::views(r@) == company(realm@, room_id@, viewer@).map_values(
            |n: text::Text| presentation::actor_span(n),
        ),
{
    let here = realm.mobs_in_room(room_id);
    let ghost all = text::views(here@);
    let ghost p = |m: MobView| m.id != viewer@;
    let ghost f = |m: MobView| m.name;
    let mut names: Vec<String> = Vec::new();
    proof {
        seqs::lemma_filter_empty(all.take(0), p);
        assert(text::views(names@) =~= all.take(0).filter(p).map_values(f));
    }
    for i in 0..here.len()
        invariant
            all == text::views(here@),
            p == (|m: MobView| m.id != viewer@),
            f == (|m: MobView| m.name),
            text::views(names@) == all.take(i as int).filter(p).map_values(f),
    {
        let mob: &Mob = here[i];
        let ghost seen = all.take(i as int);
        proof {
            assert(all[i as int] == mob@);
            assert(all.take(i + 1) =~= seen.push(mob@));
            seqs::lemma_filter_push(seen, p, mob@);
        }
        if !mob.id.is_same(viewer) {
            let ghost before = text::views(names@);
            names.push(mob.name.clone());
            proof {
                assert(text::views(names@) =~= before.push(mob@.name));
                assert(seen.filter(p).push(mob@).map_values(f) =~= seen.filter(p).map_values(
                    f,
                ).push(f(mob@)));
            }
        }
    }
    assert(all.take(here@.len() as int) =~= all);
    let names = text::sort_texts(names);
    let mut spans: Vec<Span> = Vec::new();
    for i in 0..names.len()
        invariant
            spans@.len() == i,
            forall|j: int|
                0 <= j < i ==> (#[trigger] spans@[j])@ == presentation::actor_span(names@[j]@),
    {
        spans.push(Span::actor(names[i].as_str()));
    }
    proof {
        let g = |n: text::Text| presentation::actor_span(n);
        assert(text::views(spans@) =~= text::views(names@).map_values(g));
    }
    spans
}

/// Build the semantic view of a room for `viewer` (excludes the viewer from occupants).
fn room_presentation(realm: &Realm, room_id: &EntityId, viewer: &EntityId) -> (r: Vec<
    PresentationNode,
>)
    ensures
        text::views(r@) == room_view(realm@, room_id@, viewer@),
{
    let mut nodes: Vec<PresentationNode> = Vec::new();
    if let Some(room) = realm.world.room(room_id) {
        nodes.push(PresentationNode::RoomName(room.name.clone()));
        nodes.push(PresentationNode::RoomDescription(plain_text(room.description.as_str())));
        let keys = room.exits.keys();
        let mut dirs: Vec<Direction> = Vec::new();
        for i in 0..keys.len()
            invariant
                dirs@ == keys@.take(i as int),
        {
            dirs.push(keys[i]);
            assert(dirs@ =~= keys@.take(i + 1));
        }
        assert(dirs@ =~= text::views(keys@));
        nodes.push(PresentationNode::Exits(dirs));
        nodes.push(PresentationNode::Occupants(occupants(realm, room_id, viewer)));
    }
    assert(text::views(nodes@) =~= room_view(realm@, room_id@, viewer@));
    nodes
}

// ---------------------------------------------------------------------------
// Dispatch
// ---------------------------------------------------------------------------

/// The nodes, each directed to `to`.
pub open spec fn addressed(to: text::Text, nodes: Seq<NodeView>) -> Seq<(text::Text, NodeView)> {
    Seq::new(nodes.len(), |i: int| (to, nodes[i]))
}

impl RealmView {
    /// This realm with the mob at `id` moved to the room `to`.
    pub open spec fn relocated(self, id: text::Text, to: text::Text) -> RealmView {
        RealmView {
            mobs: self.mobs.insert(id, MobView { location: to, ..self.mobs[id] }),
            ..self
        }
    }
}

/// What comes of an intent. An actor who is nowhere does nothing; looking shows
/// the room; moving is decided by the candidates, and the most salient of those
/// that decided it speaks.
pub open spec fn dispatched(realm: RealmView, intent: IntentView) -> (RealmView, DispatchView) {
    let actor = intent.actor();
    match realm.location(actor) {
        None => (realm, DispatchView::nothing()),
        Some(room) => match intent {
            IntentView::Look { .. } => (
                realm,
                DispatchView {
                    events: seq![EventView::Looked { actor, room }],
                    messages: addressed(actor, room_view(realm, room, actor)),
                },
            ),
            IntentView::Move { .. } => {
                let candidates = gather::candidates(realm, intent);
                match resolve::decided(candidates) {
                    DecisionView::Denied => (
                        realm,
                        DispatchView {
                            events: seq![],
                            messages: spoken(candidates.filter(resolve::blocks()), actor),
                        },
                    ),
                    DecisionView::Allowed { destination } => {
                        let after = realm.relocated(actor, destination);
                        (
                            after,
                            DispatchView {
                                events: seq![EventView::Moved { actor, from: room, to: destination }],
                                messages: spoken(candidates.filter(resolve::traverses()), actor)
                                    + addressed(actor, room_view(after, destination, actor)),
                            },
                        )
                    },
                    DecisionView::Unresolved => (
                        realm,
                        DispatchView {
                            events: seq![],
                            messages: seq![
                                (actor, presentation::plain_denial(realm.no_exit_message)),
                            ],
                        },
                    ),
                }
            },
        },
    }
}

/// Appends the nodes, each directed to `to`.
fn address(to: &EntityId, nodes: Vec<PresentationNode>, out: &mut Vec<(EntityId, PresentationNode)>)
    ensures
        text::views(final(out)@) == text::views(old(out)@) + addressed(to@, text::views(nodes@)),
{
    let ghost start = text::views(out@);
    let ghost all = text::views(nodes@);
    assert(start =~= start + addressed(to@, all.take(0)));
    for i in 0..nodes.len()
        invariant
            all == text::views(nodes@),
            text::views(out@) == start + addressed(to@, all.take(i as int)),
    {
        let ghost before = text::views(out@);
        out.push((to.clone(), nodes[i].clone()));
        assert(out@.last()@ == (to@, all[i as int]));
        assert(text::views(out@) =~= before.push((to@, all[i as int])));
        assert(text::views(out@) =~= start + addressed(to@, all.take(i + 1)));
    }
    assert(all.take(nodes@.len() as int) =~= all);
}

/// Dispatch one intent through Guard -> Commit -> Notify.
pub fn dispatch(realm: &mut Realm, intent: Intent) -> (r: Dispatch)
    ensures
        (final(realm)@, r@) == dispatched(old(realm)@, intent@),
{
    let mut out = Dispatch::default();
    let actor = intent.actor().clone();
    let from = match realm.mob_location(&actor) {
        Some(room) => room.clone(),
        None => return out,  // unlocated actor: nothing happens
    };
    match &intent {
        Intent::Look { .. } => {
            // Looking is not guarded: `Trigger::Look` handlers stay silent.
            let nodes = room_presentation(realm, &from, &actor);
            out.events.push(Event::Looked { actor: actor.clone(), room: from });
            address(&actor, nodes, &mut out.messages);
            proof {
                let want = dispatched(old(realm)@, intent@).1;
                assert(out@.events =~= want.events);
                assert(out@.messages =~= want.messages);
            }
        },
        Intent::Move { .. } => {
            // GUARD
            let candidates = gather(realm, &intent);
            match resolve(&candidates) {
                Decision::Denied => {
                    // salient among the blockers narrates/reacts
                    let denying = blockers(&candidates);
                    if let Some(s) = salient(&denying) {
                        apply_effects(s, &actor, &mut out.messages);
                    }
                    proof {
                        let want = dispatched(old(realm)@, intent@).1;
                        assert(out@.events =~= want.events);
                        assert(out@.messages =~= want.messages);
                    }
                },
                Decision::Allowed { destination } => {
                    // salient traverser may carry effects (usually none for a plain exit)
                    let leading = traversers(&candidates);
                    if let Some(s) = salient(&leading) {
                        apply_effects(s, &actor, &mut out.messages);
                    }
                    let ghost said = text::views(out.messages@);
                    assert(said =~= spoken(text::views(leading@), actor@));
                    // COMMIT
                    if let Some(mob) = realm.mob_mut(&actor) {
                        mob.location = destination.clone();
                    }
                    assert(realm@ == old(realm)@.relocated(actor@, destination@));
                    // arrival view
                    let nodes = room_presentation(realm, &destination, &actor);
                    out.events.push(
                        Event::Moved { actor: actor.clone(), from, to: destination },
                    );
                    address(&actor, nodes, &mut out.messages);
                    proof {
                        let want = dispatched(old(realm)@, intent@).1;
                        assert(out@.events =~= want.events);
                        assert(out@.messages =~= want.messages);
                    }
                },
                Decision::Unresolved => {
                    out.messages.push(
                        (
                            actor,
                            PresentationNode::Denied(plain_text(realm.no_exit_message.as_str())),
                        ),
                    );
                    proof {
                        let want = dispatched(old(realm)@, intent@).1;
                        assert(out.messages@[0]@ == want.messages[0]);
                        assert(out@.events =~= want.events);
                        assert(out@.messages =~= want.messages);
                    }
                },
            }
        },
    }
    out
}

// ---------------------------------------------------------------------------
// Laws
// ---------------------------------------------------------------------------

/// The only thing an intent can change is where its actor is. Rooms, rules,
/// operators, messages, every other mob and all else about the actor stay.
pub proof fn lemma_dispatch_moves_only_the_actor(realm: RealmView, intent: IntentView)
    ensures
        ({
            let after = dispatched(realm, intent).0;
            let actor = intent.actor();
            &&& after == realm || realm.mobs.contains_key(actor) && exists|to: text::Text|
                after == #[trigger] realm.relocated(actor, to)
            &&& after.world == realm.world
            &&& after.rules == realm.rules
            &&& after.operators == realm.operators
            &&& after.no_exit_message == realm.no_exit_message
            &&& after.rate_limit_message == realm.rate_limit_message
            &&& after.mobs.dom() == realm.mobs.dom()
            &&& forall|id: text::Text| #[trigger]
                realm.mobs.contains_key(id) && id != actor ==> after.mobs[id] == realm.mobs[id]
        }),
{
    let actor = intent.actor();
    let after = dispatched(realm, intent).0;
    if after != realm {
        let to = resolve::decided(gather::candidates(realm, intent))->destination;
        assert(after == realm.relocated(actor, to));
    }
    assert(after.mobs.dom() =~= realm.mobs.dom());
}

/// Looking changes nothing.
pub proof fn lemma_look_changes_nothing(realm: RealmView, actor: text::Text)
    ensures
        dispatched(realm, IntentView::Look { actor }).0 == realm,
{
}

/// Where one candidate blocks, nobody moves and nothing is recorded.
pub proof fn lemma_blocked_move_changes_nothing(
    realm: RealmView,
    intent: IntentView,
    c: CandidateView,
)
    requires
        intent is Move,
        gather::candidates(realm, intent).contains(c),
        c.outcome is Block,
    ensures
        dispatched(realm, intent).0 == realm,
        dispatched(realm, intent).1.events == Seq::<EventView>::empty(),
{
    resolve::lemma_block_denies(gather::candidates(realm, intent), c);
}

/// With nobody and nothing having a say against it, an exit is taken: the actor
/// is in the room it leads to, and that is what the event says.
pub proof fn lemma_open_exit_is_taken(
    realm: RealmView,
    actor: text::Text,
    direction: Direction,
    room: text::Text,
)
    requires
        realm.location(actor) == Some(room),
        realm.world.contains_key(room),
        realm.world[room].exits.contains_key(direction),
        gather::participant_candidates(realm, IntentView::Move { actor, direction }, room).len() == 0,
        gather::contributions(
            realm,
            IntentView::Move { actor, direction },
            crate::fabric::handler::Band::Global,
            None,
            realm.rules,
        ).len() == 0,
    ensures
        ({
            let to = realm.world[room].exits[direction];
            let (after, out) = dispatched(realm, IntentView::Move { actor, direction });
            &&& after == realm.relocated(actor, to)
            &&& after.location(actor) == Some(to)
            &&& out.events == seq![EventView::Moved { actor, from: room, to }]
        }),
{
    let intent = IntentView::Move { actor, direction };
    let all = gather::candidates(realm, intent);
    let exit = gather::structure_candidates(realm, intent, room)[0];
    assert(all =~= seq![exit]);
    let p = all.filter(resolve::traverses());
    seqs::lemma_filter_empty(Seq::<CandidateView>::empty(), resolve::traverses());
    seqs::lemma_filter_push(Seq::<CandidateView>::empty(), resolve::traverses(), exit);
    assert(all =~= Seq::<CandidateView>::empty().push(exit));
    assert(p =~= seq![exit]);
    resolve::lemma_salient_exists(p);
}

/// An event of a move says where the actor was and where the actor now is.
pub proof fn lemma_events_tell_the_truth(realm: RealmView, intent: IntentView, e: EventView)
    requires
        dispatched(realm, intent).1.events.contains(e),
    ensures
        match e {
            EventView::Moved { actor, from, to } => {
                &&& actor == intent.actor()
                &&& realm.location(actor) == Some(from)
                &&& dispatched(realm, intent).0.location(actor) == Some(to)
            },
            EventView::Looked { actor, room } => {
                &&& actor == intent.actor()
                &&& realm.location(actor) == Some(room)
            },
        },
{
}

/// The actor ends up elsewhere only through a recorded move.
pub proof fn lemma_no_move_without_event(realm: RealmView, intent: IntentView)
    requires
        dispatched(realm, intent).0 != realm,
    ensures
        exists|e: EventView| #[trigger]
            dispatched(realm, intent).1.events.contains(e) && e is Moved,
{
    let events = dispatched(realm, intent).1.events;
    assert(events.contains(events[0]));
}

/// What is kept at its own id stays so.
pub proof fn lemma_dispatch_keeps_consistency(realm: RealmView, intent: IntentView)
    requires
        realm.consistent(),
    ensures
        dispatched(realm, intent).0.consistent(),
{
    lemma_dispatch_moves_only_the_actor(realm, intent);
    let after = dispatched(realm, intent).0;
    assert forall|id: text::Text| #[trigger] after.mobs.contains_key(id) implies after.mobs[id].id
        == id by {
        assert(realm.mobs.contains_key(id));
    }
    assert forall|id: text::Text| #[trigger] after.world.contains_key(id) implies after.world[id].id
        == id by {
        assert(realm.world.contains_key(id));
    }
}

proof fn lemma_narration_reaches(c: CandidateView, actor: text::Text, m: (text::Text, NodeView))
    requires
        narration(c, actor).contains(m),
    ensures
        m.0 == actor || c.self_id == Some(m.0),
{
    let p = reaches(c.self_id, actor);
    let f = message(c.self_id, actor);
    let kept = c.effects.filter(p);
    let k = choose|k: int| 0 <= k < narration(c, actor).len() && narration(c, actor)[k] == m;
    assert(m == f(kept[k]));
    assert(kept.contains(kept[k]));
    seqs::lemma_filter_contains(c.effects, p, kept[k]);
}

proof fn lemma_spoken_reaches(
    realm: RealmView,
    intent: IntentView,
    p: spec_fn(CandidateView) -> bool,
    m: (text::Text, NodeView),
)
    requires
        spoken(gather::candidates(realm, intent).filter(p), intent.actor()).contains(m),
    ensures
        m.0 == intent.actor() || exists|mob: MobView| #[trigger]
            realm.present(realm.location(intent.actor())->0).contains(mob) && mob.id == m.0,
{
    let all = gather::candidates(realm, intent);
    let kept = all.filter(p);
    resolve::lemma_salient_exists(kept);
    let c = kept[resolve::salient_position(kept)];
    assert(kept.contains(c));
    seqs::lemma_filter_contains(all, p, c);
    lemma_narration_reaches(c, intent.actor(), m);
    gather::lemma_candidate_origin(realm, intent, c);
}

/// Messages reach the actor, or a mob that was in the actor's room: nobody
/// else hears of an intent.
pub proof fn lemma_messages_stay_in_the_room(
    realm: RealmView,
    intent: IntentView,
    m: (text::Text, NodeView),
)
    requires
        dispatched(realm, intent).1.messages.contains(m),
    ensures
        m.0 == intent.actor() || exists|mob: MobView| #[trigger]
            realm.present(realm.location(intent.actor())->0).contains(mob) && mob.id == m.0,
{
    let actor = intent.actor();
    let messages = dispatched(realm, intent).1.messages;
    let k = choose|k: int| 0 <= k < messages.len() && messages[k] == m;
    if intent is Move {
        let candidates = gather::candidates(realm, intent);
        match resolve::decided(candidates) {
            DecisionView::Denied => {
                lemma_spoken_reaches(realm, intent, resolve::blocks(), m);
            },
            DecisionView::Allowed { destination } => {
                let said = spoken(candidates.filter(resolve::traverses()), actor);
                if k < said.len() {
                    assert(said[k] == m);
                    assert(said.contains(m));
                    lemma_spoken_reaches(realm, intent, resolve::traverses(), m);
                }
            },
            DecisionView::Unresolved => {},
        }
    }
}

} // verus!
