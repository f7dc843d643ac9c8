//! What a new world starts with.

use vstd::prelude::*;

use crate::direction::Direction;
use crate::engine::model::Progress;
use crate::engine::{turns, Engine};
use crate::fabric::dispatch;
use crate::fabric::intent::IntentView;
use crate::fabric::operator::{IntentClass, Operator, OperatorView, PresentationKind, Scope};
use crate::fabric::rate_limit::Bucket;
use crate::id::{self, EntityId};
use crate::presentation::{NodeView, Role, SpanView};
use crate::realm::RealmView;
use crate::sorted_map::SortedMap;
use crate::store::{self, StoreError};
use crate::text;
use crate::world::{Room, RoomView};

verus! {

/// The clearing of the starter world.
pub open spec fn clearing_view() -> RoomView {
    RoomView {
        id: "snakewood/clearing"@,
        name: "Snakewood Clearing"@,
        description: "Gnarled snakewood trees ring a clearing of trampled grass."@,
        exits: Map::empty().insert(Direction::North, "snakewood/old-well"@),
    }
}

/// The well of the starter world.
pub open spec fn old_well_view() -> RoomView {
    RoomView {
        id: "snakewood/old-well"@,
        name: "The Old Well"@,
        description: "A crumbling stone well sinks into darkness."@,
        exits: Map::empty().insert(Direction::South, "snakewood/clearing"@),
    }
}

/// The starter operators: one step per four ticks and actor, and redundant room
/// redraws collapsed.
pub open spec fn starter_operators() -> Seq<OperatorView> {
    seq![
        OperatorView::RateLimit {
            on: IntentClass::Move,
            per_ticks: 4,
            scope: Scope::PerActor,
            deny: Some("You catch your breath before moving again."@),
        },
        OperatorView::Coalesce {
            on: seq![
                PresentationKind::RoomName,
                PresentationKind::RoomDescription,
                PresentationKind::Exits,
                PresentationKind::Occupants,
            ],
            within_ticks: 1,
            scope: Scope::PerActor,
        },
    ]
}

impl RealmView {
    /// This realm with the starter world in it.
    pub open spec fn seeded(self) -> RealmView {
        self.with_room(clearing_view()).with_room(old_well_view())
    }
}

/// The id of the clearing is an identifier.
pub proof fn lemma_clearing_id_is_valid()
    ensures
        id::valid_id("snakewood/clearing"@),
{
    reveal_strlit("snakewood/clearing");
    assert("snakewood/clearing"@[9] == '/');
}

/// The id of the well is an identifier.
pub proof fn lemma_old_well_id_is_valid()
    ensures
        id::valid_id("snakewood/old-well"@),
{
    reveal_strlit("snakewood/old-well");
    assert("snakewood/old-well"@[9] == '/');
}

/// The room in which players start.
pub fn start_room() -> (r: EntityId)
    ensures
        r@ == "snakewood/clearing"@,
{
    proof {
        lemma_clearing_id_is_valid();
    }
    EntityId::new("snakewood/clearing").unwrap()
}

fn old_well() -> (r: EntityId)
    ensures
        r@ == "snakewood/old-well"@,
{
    proof {
        lemma_old_well_id_is_valid();
    }
    EntityId::new("snakewood/old-well").unwrap()
}

/// Seed a minimal two-room world if the loaded realm has no rooms.
pub fn seed_if_empty(engine: &mut Engine) -> (r: Result<(), StoreError>)
    ensures
        if old(engine)@.realm.world == Map::<text::Text, RoomView>::empty() {
            exists|now: i64|
                #[trigger] (old(engine)@.time)(now) && old(engine)@.with_realm(
                    old(engine)@.realm.seeded(),
                ).persisted(final(engine)@, "seed starter world"@, now, store::failure(r))
        } else {
            r is Ok && final(engine)@ == old(engine)@
        },
{
    if !engine.realm().world.rooms.is_empty() {
        return Ok(());
    }
    let mut exits: SortedMap<Direction, EntityId> = SortedMap::new();
    exits.insert(Direction::North, old_well());
    engine.realm_mut().world.insert_room(
        Room {
            id: start_room(),
            name: "Snakewood Clearing".to_string(),
            description: "Gnarled snakewood trees ring a clearing of trampled grass.".to_string(),
            exits,
        },
    );
    let mut back: SortedMap<Direction, EntityId> = SortedMap::new();
    back.insert(Direction::South, start_room());
    engine.realm_mut().world.insert_room(
        Room {
            id: old_well(),
            name: "The Old Well".to_string(),
            description: "A crumbling stone well sinks into darkness.".to_string(),
            exits: back,
        },
    );
    assert(engine@ == old(engine)@.with_realm(old(engine)@.realm.seeded()));
    engine.checkpoint("seed starter world")
}

/// Attach the starter operators if none are configured: rate-limit movement
/// (one step per 4 ticks per actor) and coalesce redundant room redraws.
pub fn seed_operators_if_empty(engine: &mut Engine) -> (r: Result<(), StoreError>)
    ensures
        if old(engine)@.realm.operators.len() == 0 {
            exists|now: i64|
                #[trigger] (old(engine)@.time)(now) && old(engine)@.with_realm(
                    (RealmView { operators: starter_operators(), ..old(engine)@.realm }),
                ).persisted(final(engine)@, "seed M2 operators"@, now, store::failure(r))
        } else {
            r is Ok && final(engine)@ == old(engine)@
        },
{
    if engine.realm().operators.len() > 0 {
        return Ok(());
    }
    let mut kinds: Vec<PresentationKind> = Vec::new();
    kinds.push(PresentationKind::RoomName);
    kinds.push(PresentationKind::RoomDescription);
    kinds.push(PresentationKind::Exits);
    kinds.push(PresentationKind::Occupants);
    let limit = Operator::RateLimit {
        on: IntentClass::Move,
        per_ticks: 4,
        scope: Scope::PerActor,
        deny: Some("You catch your breath before moving again.".to_string()),
    };
    let collapse = Operator::Coalesce { on: kinds, within_ticks: 1, scope: Scope::PerActor };
    let mut operators: Vec<Operator> = Vec::new();
    operators.push(limit);
    operators.push(collapse);
    proof {
        let want = starter_operators();
        assert(kinds@ =~= want[1]->Coalesce_on);
        assert(limit@ == want[0]);
        assert(collapse@ == want[1]);
        assert(text::views(operators@) =~= want);
    }
    engine.realm_mut().operators = operators;
    engine.checkpoint("seed M2 operators")
}

// ---------------------------------------------------------------------------
// Laws
// ---------------------------------------------------------------------------

/// The starter world is connected both ways, and everything in it is kept at its
/// own id.
pub proof fn lemma_starter_world_is_connected(realm: RealmView)
    requires
        realm.world == Map::<text::Text, RoomView>::empty(),
        realm.consistent(),
    ensures
        ({
            let w = realm.seeded().world;
            &&& w["snakewood/clearing"@].exits[Direction::North] == "snakewood/old-well"@
            &&& w["snakewood/old-well"@].exits[Direction::South] == "snakewood/clearing"@
            &&& w.contains_key("snakewood/clearing"@)
            &&& w.contains_key("snakewood/old-well"@)
            &&& realm.seeded().consistent()
        }),
{
    reveal_strlit("snakewood/clearing");
    reveal_strlit("snakewood/old-well");
    assert("snakewood/clearing"@[10] != "snakewood/old-well"@[10]);
    let after = realm.seeded();
    assert forall|k: text::Text| #[trigger] after.mobs.contains_key(k) implies after.mobs[k].id
        == k by {
        assert(realm.mobs.contains_key(k));
    }
}

/// The starter world has two rooms and no more: a clearing with one exit, north to the
/// well, and the well with one exit, south to the clearing. Nothing else of the realm
/// is touched.
pub proof fn lemma_what_is_seeded(realm: RealmView)
    requires
        realm.world == Map::<text::Text, RoomView>::empty(),
    ensures
        ({
            let after = realm.seeded();
            let clearing = after.world["snakewood/clearing"@];
            let well = after.world["snakewood/old-well"@];
            &&& forall|id: text::Text| #[trigger]
                after.world.contains_key(id) <==> id == "snakewood/clearing"@ || id
                    == "snakewood/old-well"@
            &&& forall|d: Direction| #[trigger]
                clearing.exits.contains_key(d) <==> d is North
            &&& clearing.exits[Direction::North] == "snakewood/old-well"@
            &&& forall|d: Direction| #[trigger] well.exits.contains_key(d) <==> d is South
            &&& well.exits[Direction::South] == "snakewood/clearing"@
            &&& clearing.name == "Snakewood Clearing"@
            &&& well.name == "The Old Well"@
            &&& clearing.description
                == "Gnarled snakewood trees ring a clearing of trampled grass."@
            &&& well.description == "A crumbling stone well sinks into darkness."@
            &&& after == RealmView { world: after.world, ..realm }
        }),
{
    reveal_strlit("snakewood/clearing");
    reveal_strlit("snakewood/old-well");
    assert("snakewood/clearing"@[10] != "snakewood/old-well"@[10]);
}

/// Under the starter operators an actor who was let through at one tick is held back
/// from moving until the fourth tick after it, and is told so; from then on the next
/// move is dispatched. Looking, and whoever was never let through, is not held back.
pub proof fn lemma_one_step_per_four_ticks(
    p: Progress,
    actor: text::Text,
    direction: Direction,
    tick: int,
)
    requires
        p.realm.operators == starter_operators(),
        0 <= tick <= u64::MAX,
    ensures
        ({
            let intent = IntentView::Move { actor, direction };
            let look = IntentView::Look { actor };
            let mine = (0int, Some(actor));
            let q = p.worked(intent, tick);
            let held = p.limiter.contains_key(mine) && tick < p.limiter[mine] + 4;
            &&& held ==> q.realm == p.realm && q.limiter == p.limiter && q.batch == p.batch.push(
                (
                    actor,
                    NodeView::Denied(
                        seq![
                            SpanView {
                                text: "You catch your breath before moving again."@,
                                role: Role::Default,
                            },
                        ],
                    ),
                ),
            )
            &&& !held ==> q.realm == dispatch::dispatched(p.realm, intent).0 && q.batch == p.batch
                + dispatch::dispatched(p.realm, intent).1.messages && q.limiter.contains_key(mine)
                && q.limiter[mine] == tick
            &&& !held ==> forall|b: Bucket|
                b != mine ==> (#[trigger] q.limiter.contains_key(b) <==> p.limiter.contains_key(b))
            &&& p.worked(look, tick).batch == p.batch + dispatch::dispatched(
                p.realm,
                look,
            ).1.messages
        }),
{
    let intent = IntentView::Move { actor, direction };
    let look = IntentView::Look { actor };
    let ops = p.realm.operators;
    let mine = (0int, Some(actor));
    turns::lemma_turn_of_an_intent(p, intent, tick);
    turns::lemma_turn_of_an_intent(p, look, tick);
    assert(turns::tallies(ops[0], 0, intent, mine));
    if p.limiter.contains_key(mine) && tick < p.limiter[mine] + 4 {
        assert(turns::holds_back(p.limiter, ops, intent, tick, 0));
    }
    assert forall|j: int, b: Bucket| turns::tallies(ops[j], j, intent, b) && 0 <= j < 2 implies j == 0
        && b == mine by {}
    assert(!turns::holds_back(p.limiter, ops, look, tick, 0));
    assert(!turns::holds_back(p.limiter, ops, look, tick, 1));
    assert(!turns::holds_back(p.limiter, ops, intent, tick, 1));
}

/// Under the starter operators what shows a room collapses within a tick: its name, its
/// description, its exits and who is there. What is said does not.
pub proof fn lemma_room_redraws_collapse(kind: PresentationKind)
    ensures
        turns::listed(starter_operators(), kind) <==> kind is RoomName || kind is RoomDescription
            || kind is Exits || kind is Occupants,
{
    let ops = starter_operators();
    let on = ops[1]->Coalesce_on;
    assert(ops[1] is Coalesce);
    assert(on[0] is RoomName && on[1] is RoomDescription && on[2] is Exits && on[3] is Occupants);
    if turns::listed(ops, kind) {
        let i = choose|i: int|
            #![trigger ops[i]]
            0 <= i < ops.len() && ops[i] is Coalesce && ops[i]->Coalesce_on.contains(kind);
        assert(i == 1);
    }
    if kind is RoomName || kind is RoomDescription || kind is Exits || kind is Occupants {
        assert(on.contains(kind));
    }
}

} // verus!
