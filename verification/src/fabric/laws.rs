//! What holds of intents as a whole, told by the rooms, mobs and rules of a realm.

use vstd::prelude::*;

use crate::direction::{self, Direction};
use crate::fabric::dispatch;
use crate::fabric::gather::{self, CandidateView};
use crate::fabric::handler::{Band, EffectView, HandlerView, OutcomeView};
use crate::fabric::intent::{EventView, IntentView};
use crate::fabric::predicate::{self, Party, Predicate};
use crate::fabric::resolve;
use crate::fabric::trigger::Trigger;
use crate::id::EntityId;
use crate::mob::{Flag, MobView};
use crate::presentation::{NodeView, Role, SpanView};
use crate::realm::RealmView;
use crate::seqs;
use crate::sorted_map::{self, Ordered};
use crate::text;

verus! {

// ---------------------------------------------------------------------------
// Who has a say
// ---------------------------------------------------------------------------

/// Whether the mob at `id` is there and carries `flag`.
pub open spec fn flagged(realm: RealmView, id: text::Text, flag: Flag) -> bool {
    realm.mobs.contains_key(id) && realm.mobs[id].flags.contains(flag)
}

/// Whether a condition of a handler of `owner` is met when `actor` acts.
pub open spec fn met(
    realm: RealmView,
    condition: Predicate,
    owner: Option<text::Text>,
    actor: text::Text,
) -> bool {
    match condition {
        Predicate::Alive(Party::Actor) => flagged(realm, actor, Flag::Alive),
        Predicate::Conscious(Party::Actor) => flagged(realm, actor, Flag::Conscious),
        Predicate::Alive(Party::SelfMob) => owner is Some && flagged(realm, owner->0, Flag::Alive),
        Predicate::Conscious(Party::SelfMob) => owner is Some && flagged(
            realm,
            owner->0,
            Flag::Conscious,
        ),
    }
}

/// Whether a handler of `owner` has a say when `actor` moves in a direction: it
/// listens for that direction or for any, and its conditions are met.
pub open spec fn has_a_say(
    realm: RealmView,
    h: HandlerView,
    owner: Option<text::Text>,
    actor: text::Text,
    direction: Direction,
) -> bool {
    &&& h.on == Trigger::Move(direction) || h.on == Trigger::AnyMove
    &&& forall|i: int| 0 <= i < h.require.len() ==> met(realm, #[trigger] h.require[i], owner, actor)
}

/// What a handler says.
pub open spec fn voice(band: Band, owner: Option<text::Text>, h: HandlerView) -> CandidateView {
    CandidateView {
        band,
        priority: h.priority,
        self_id: owner,
        outcome: h.outcome,
        effects: h.effects,
    }
}

/// Whether `c` is what the exit of `room` in a direction says.
pub open spec fn says_exit(
    realm: RealmView,
    room: text::Text,
    direction: Direction,
    c: CandidateView,
) -> bool {
    &&& realm.world.contains_key(room)
    &&& realm.world[room].exits.contains_key(direction)
    &&& c.band is Structure
    &&& c.priority == 0
    &&& c.self_id is None
    &&& c.outcome == OutcomeView::Traverse(realm.world[room].exits[direction])
    &&& c.effects.len() == 0
}

/// Whether `c` is what the `k`-th responder of the mob at `id` says, who is in
/// `room` and is not the actor.
pub open spec fn says_mob(
    realm: RealmView,
    room: text::Text,
    actor: text::Text,
    direction: Direction,
    id: text::Text,
    k: int,
    c: CandidateView,
) -> bool {
    let m = realm.mobs[id];
    &&& realm.mobs.contains_key(id)
    &&& m.location == room
    &&& m.id != actor
    &&& 0 <= k < m.responders.len()
    &&& has_a_say(realm, m.responders[k], Some(m.id), actor, direction)
    &&& c == voice(Band::Participant, Some(m.id), m.responders[k])
}

/// Whether `c` is what the `k`-th rule says.
pub open spec fn says_rule(
    realm: RealmView,
    actor: text::Text,
    direction: Direction,
    k: int,
    c: CandidateView,
) -> bool {
    &&& 0 <= k < realm.rules.len()
    &&& has_a_say(realm, realm.rules[k], None, actor, direction)
    &&& c == voice(Band::Global, None, realm.rules[k])
}

/// Whether `c` is said when `actor` moves in a direction: by the exit that way, by
/// another mob in the actor's room, or by a rule of the realm.
pub open spec fn is_said(
    realm: RealmView,
    actor: text::Text,
    direction: Direction,
    c: CandidateView,
) -> bool {
    let room = realm.mobs[actor].location;
    &&& realm.mobs.contains_key(actor)
    &&& {
        ||| says_exit(realm, room, direction, c)
        ||| exists|id: text::Text, k: int| says_mob(realm, room, actor, direction, id, k, c)
        ||| exists|k: int| says_rule(realm, actor, direction, k, c)
    }
}

proof fn lemma_say(
    realm: RealmView,
    h: HandlerView,
    owner: Option<text::Text>,
    actor: text::Text,
    direction: Direction,
)
    ensures
        gather::applies(realm, IntentView::Move { actor, direction }, owner)(h) <==> has_a_say(
            realm,
            h,
            owner,
            actor,
            direction,
        ),
{
    let intent = IntentView::Move { actor, direction };
    match h.on {
        Trigger::Move(d) => crate::fabric::trigger::lemma_what_triggers_hear(actor, direction, d),
        _ => crate::fabric::trigger::lemma_what_triggers_hear(actor, direction, direction),
    }
    assert forall|i: int| 0 <= i < h.require.len() implies (predicate::holds(
        realm,
        #[trigger] h.require[i],
        owner,
        actor,
    ) <==> met(realm, h.require[i], owner, actor)) by {
        let o = if owner is Some {
            owner->0
        } else {
            actor
        };
        predicate::lemma_whose_flags_count(realm, o, actor, owner);
    }
    assert(gather::passes(realm, h.require, owner, actor) <==> forall|i: int|
        0 <= i < h.require.len() ==> met(realm, #[trigger] h.require[i], owner, actor));
}

proof fn lemma_contributes(
    realm: RealmView,
    actor: text::Text,
    direction: Direction,
    band: Band,
    owner: Option<text::Text>,
    handlers: Seq<HandlerView>,
    k: int,
)
    requires
        0 <= k < handlers.len(),
        has_a_say(realm, handlers[k], owner, actor, direction),
    ensures
        gather::contributions(
            realm,
            IntentView::Move { actor, direction },
            band,
            owner,
            handlers,
        ).contains(voice(band, owner, handlers[k])),
{
    let intent = IntentView::Move { actor, direction };
    let p = gather::applies(realm, intent, owner);
    let f = gather::contribution(band, owner);
    lemma_say(realm, handlers[k], owner, actor, direction);
    assert(handlers.contains(handlers[k]));
    seqs::lemma_filter_contains(handlers, p, handlers[k]);
    let kept = handlers.filter(p);
    let i = choose|i: int| 0 <= i < kept.len() && kept[i] == handlers[k];
    assert(kept.map_values(f)[i] == voice(band, owner, handlers[k]));
}

proof fn lemma_contributed(
    realm: RealmView,
    actor: text::Text,
    direction: Direction,
    band: Band,
    owner: Option<text::Text>,
    handlers: Seq<HandlerView>,
    c: CandidateView,
) -> (k: int)
    requires
        gather::contributions(
            realm,
            IntentView::Move { actor, direction },
            band,
            owner,
            handlers,
        ).contains(c),
    ensures
        0 <= k < handlers.len(),
        has_a_say(realm, handlers[k], owner, actor, direction),
        c == voice(band, owner, handlers[k]),
{
    let intent = IntentView::Move { actor, direction };
    let p = gather::applies(realm, intent, owner);
    let f = gather::contribution(band, owner);
    let kept = handlers.filter(p);
    let i = choose|i: int| 0 <= i < kept.map_values(f).len() && kept.map_values(f)[i] == c;
    assert(kept.contains(kept[i]));
    seqs::lemma_filter_contains(handlers, p, kept[i]);
    let k = choose|k: int| 0 <= k < handlers.len() && handlers[k] == kept[i];
    lemma_say(realm, handlers[k], owner, actor, direction);
    k
}

/// Whoever is found in a room is kept by the realm and located there, and whoever
/// is located there is found.
pub proof fn lemma_present_are_those_located_there(
    realm: RealmView,
    room: text::Text,
    m: MobView,
)
    requires
        realm.mobs.dom().finite(),
    ensures
        realm.present(room).contains(m) <==> exists|id: text::Text| #[trigger]
            realm.mobs.contains_key(id) && realm.mobs[id] == m && m.location == room,
{
    sorted_map::lemma_finite_map_is_listed::<EntityId, MobView>(realm.mobs);
    let keys = sorted_map::in_order::<EntityId, MobView>(realm.mobs);
    let all = sorted_map::values_in_order::<EntityId, MobView>(realm.mobs);
    let here = |x: MobView| x.location == room;
    seqs::lemma_filter_contains(all, here, m);
    if all.contains(m) {
        let i = choose|i: int| 0 <= i < all.len() && all[i] == m;
        assert(keys.contains(keys[i]));
        assert(realm.mobs.contains_key(keys[i]) && realm.mobs[keys[i]] == m);
    }
    if exists|id: text::Text| #[trigger]
        realm.mobs.contains_key(id) && realm.mobs[id] == m && m.location == room {
        let id = choose|id: text::Text| #[trigger]
            realm.mobs.contains_key(id) && realm.mobs[id] == m && m.location == room;
        assert(keys.contains(id));
        let i = choose|i: int| 0 <= i < keys.len() && keys[i] == id;
        assert(all[i] == m);
    }
}

/// Gathering is complete, and adds nothing of its own. When an actor moves in a
/// direction, the candidates are exactly: the exit of the actor's room that way;
/// every responder, of every other mob in that room, that listens for that
/// direction or for any and whose conditions are met; and every such rule.
pub proof fn lemma_everyone_with_a_say_is_heard(
    realm: RealmView,
    actor: text::Text,
    direction: Direction,
    c: CandidateView,
)
    requires
        realm.mobs.dom().finite(),
    ensures
        gather::candidates(realm, IntentView::Move { actor, direction }).contains(c) <==> is_said(
            realm,
            actor,
            direction,
            c,
        ),
{
    let intent = IntentView::Move { actor, direction };
    let room = realm.mobs[actor].location;
    let s = gather::structure_candidates(realm, intent, room);
    let p = gather::participant_candidates(realm, intent, room);
    let g = gather::contributions(realm, intent, Band::Global, None, realm.rules);
    let all = gather::candidates(realm, intent);
    let each = gather::mob_candidates(realm, intent);
    let present = realm.present(room);
    let parts = present.map_values(each);
    if realm.mobs.contains_key(actor) {
        assert(all == s + p + g);
        if all.contains(c) {
            let k = choose|k: int| 0 <= k < all.len() && all[k] == c;
            if k < s.len() {
                assert(s[k] == c);
                assert(says_exit(realm, room, direction, c));
            } else if k < s.len() + p.len() {
                assert(p[k - s.len()] == c);
                assert(p.contains(c));
                seqs::lemma_flatten_contains(parts, c);
                let i = choose|i: int| 0 <= i < parts.len() && (#[trigger] parts[i]).contains(c);
                let m = present[i];
                assert(present.contains(m));
                lemma_present_are_those_located_there(realm, room, m);
                let id = choose|id: text::Text| #[trigger]
                    realm.mobs.contains_key(id) && realm.mobs[id] == m && m.location == room;
                let n = lemma_contributed(
                    realm,
                    actor,
                    direction,
                    Band::Participant,
                    Some(m.id),
                    m.responders,
                    c,
                );
                assert(says_mob(realm, room, actor, direction, id, n, c));
            } else {
                assert(g[k - s.len() - p.len()] == c);
                assert(g.contains(c));
                let n = lemma_contributed(
                    realm,
                    actor,
                    direction,
                    Band::Global,
                    None,
                    realm.rules,
                    c,
                );
                assert(says_rule(realm, actor, direction, n, c));
            }
        }
        if says_exit(realm, room, direction, c) {
            assert(c.effects =~= seq![]);
            assert(s[0] == c);
            assert(all[0] == c);
        }
        if exists|id: text::Text, k: int| says_mob(realm, room, actor, direction, id, k, c) {
            let (id, k) = choose|id: text::Text, k: int|
                says_mob(realm, room, actor, direction, id, k, c);
            let m = realm.mobs[id];
            lemma_present_are_those_located_there(realm, room, m);
            let i = choose|i: int| 0 <= i < present.len() && present[i] == m;
            lemma_contributes(
                realm,
                actor,
                direction,
                Band::Participant,
                Some(m.id),
                m.responders,
                k,
            );
            assert(parts[i] == each(m));
            let n = choose|n: int| 0 <= n < parts[i].len() && parts[i][n] == c;
            let o = seqs::lemma_flatten_part(parts, i);
            assert(parts.flatten()[o + n] == parts[i][n]);
            assert(all[s.len() + o + n] == c);
        }
        if exists|k: int| says_rule(realm, actor, direction, k, c) {
            let k = choose|k: int| says_rule(realm, actor, direction, k, c);
            lemma_contributes(realm, actor, direction, Band::Global, None, realm.rules, k);
            let n = choose|n: int| 0 <= n < g.len() && g[n] == c;
            assert(all[s.len() + p.len() + n] == c);
        }
    }
}

/// Handlers of one mob that have a say are heard in the order in which the mob has
/// them.
pub proof fn lemma_responders_are_heard_in_order(
    realm: RealmView,
    actor: text::Text,
    direction: Direction,
    id: text::Text,
    i: int,
    j: int,
)
    requires
        realm.mobs.dom().finite(),
        realm.mobs.contains_key(actor),
        realm.mobs.contains_key(id),
        realm.mobs[id].location == realm.mobs[actor].location,
        realm.mobs[id].id != actor,
        0 <= i < j < realm.mobs[id].responders.len(),
        has_a_say(realm, realm.mobs[id].responders[i], Some(realm.mobs[id].id), actor, direction),
        has_a_say(realm, realm.mobs[id].responders[j], Some(realm.mobs[id].id), actor, direction),
    ensures
        ({
            let m = realm.mobs[id];
            let all = gather::candidates(realm, IntentView::Move { actor, direction });
            exists|a: int, b: int|
                #![trigger all[a], all[b]]
                0 <= a < b < all.len() && all[a] == voice(
                    Band::Participant,
                    Some(m.id),
                    m.responders[i],
                ) && all[b] == voice(Band::Participant, Some(m.id), m.responders[j])
        }),
{
    let intent = IntentView::Move { actor, direction };
    let m = realm.mobs[id];
    let room = m.location;
    let s = gather::structure_candidates(realm, intent, room);
    let all = gather::candidates(realm, intent);
    let p = gather::applies(realm, intent, Some(m.id));
    let f = gather::contribution(Band::Participant, Some(m.id));
    let each = gather::mob_candidates(realm, intent);
    let parts = realm.present(room).map_values(each);
    lemma_say(realm, m.responders[i], Some(m.id), actor, direction);
    lemma_say(realm, m.responders[j], Some(m.id), actor, direction);
    seqs::lemma_filter_keeps_order(m.responders, p, i, j);
    let kept = m.responders.filter(p);
    let (a, b) = choose|a: int, b: int|
        #![trigger kept[a], kept[b]]
        0 <= a < b < kept.len() && kept[a] == m.responders[i] && kept[b] == m.responders[j];
    lemma_present_are_those_located_there(realm, room, m);
    let n = choose|n: int| 0 <= n < realm.present(room).len() && realm.present(room)[n] == m;
    assert(parts[n] == kept.map_values(f));
    let o = seqs::lemma_flatten_part(parts, n);
    assert(parts.flatten()[o + a] == parts[n][a]);
    assert(parts.flatten()[o + b] == parts[n][b]);
    assert(all[s.len() + o + a] == f(kept[a]));
    assert(all[s.len() + o + b] == f(kept[b]));
}

/// Rules that have a say are heard in the order in which the realm has them.
pub proof fn lemma_rules_are_heard_in_order(
    realm: RealmView,
    actor: text::Text,
    direction: Direction,
    i: int,
    j: int,
)
    requires
        realm.mobs.contains_key(actor),
        0 <= i < j < realm.rules.len(),
        has_a_say(realm, realm.rules[i], None, actor, direction),
        has_a_say(realm, realm.rules[j], None, actor, direction),
    ensures
        ({
            let all = gather::candidates(realm, IntentView::Move { actor, direction });
            exists|a: int, b: int|
                #![trigger all[a], all[b]]
                0 <= a < b < all.len() && all[a] == voice(Band::Global, None, realm.rules[i])
                    && all[b] == voice(Band::Global, None, realm.rules[j])
        }),
{
    let intent = IntentView::Move { actor, direction };
    let room = realm.mobs[actor].location;
    let s = gather::structure_candidates(realm, intent, room);
    let q = gather::participant_candidates(realm, intent, room);
    let all = gather::candidates(realm, intent);
    let p = gather::applies(realm, intent, None);
    let f = gather::contribution(Band::Global, None);
    lemma_say(realm, realm.rules[i], None, actor, direction);
    lemma_say(realm, realm.rules[j], None, actor, direction);
    seqs::lemma_filter_keeps_order(realm.rules, p, i, j);
    let kept = realm.rules.filter(p);
    let (a, b) = choose|a: int, b: int|
        #![trigger kept[a], kept[b]]
        0 <= a < b < kept.len() && kept[a] == realm.rules[i] && kept[b] == realm.rules[j];
    assert(all[s.len() + q.len() + a] == f(kept[a]));
    assert(all[s.len() + q.len() + b] == f(kept[b]));
}

// ---------------------------------------------------------------------------
// What is shown of a room
// ---------------------------------------------------------------------------

/// Where the mobs of one name are kept that are in `room` and are not `viewer`.
pub open spec fn namesakes(
    realm: RealmView,
    room: text::Text,
    viewer: text::Text,
    name: text::Text,
) -> Set<text::Text> {
    Set::new(
        |id: text::Text|
            realm.mobs.contains_key(id) && realm.mobs[id].location == room && realm.mobs[id].id
                != viewer && realm.mobs[id].name == name,
    )
}

/// Whether the spans name those in `room` besides `viewer`: as actors, in
/// increasing order, and each name as often as there are mobs of that name.
pub open spec fn names_company(
    spans: Seq<SpanView>,
    realm: RealmView,
    room: text::Text,
    viewer: text::Text,
) -> bool {
    &&& forall|i: int| 0 <= i < spans.len() ==> (#[trigger] spans[i]).role is Actor
    &&& forall|i: int, j: int|
        0 <= i < j < spans.len() ==> !text::precedes(
            (#[trigger] spans[j]).text,
            (#[trigger] spans[i]).text,
        )
    &&& forall|name: text::Text|
        #![trigger namesakes(realm, room, viewer, name)]
        spans.map_values(|s: SpanView| s.text).to_multiset().count(name) == namesakes(
            realm,
            room,
            viewer,
            name,
        ).len()
}

/// Whether the messages show `viewer` a room: its name, its description, the
/// directions in which it has an exit in the order north, south, east, west, up,
/// down, and who else is in it. Of a room that is not in the world nothing is shown.
pub open spec fn shows(
    messages: Seq<(text::Text, NodeView)>,
    realm: RealmView,
    room: text::Text,
    viewer: text::Text,
) -> bool {
    if realm.world.contains_key(room) {
        let r = realm.world[room];
        &&& messages.len() == 4
        &&& forall|i: int| 0 <= i < 4 ==> (#[trigger] messages[i]).0 == viewer
        &&& messages[0].1 == NodeView::RoomName(r.name)
        &&& messages[1].1 == NodeView::RoomDescription(
            seq![SpanView { text: r.description, role: Role::Default }],
        )
        &&& messages[2].1 is Exits
        &&& messages[2].1->Exits_0 == direction::compass().filter(
            |d: Direction| r.exits.contains_key(d),
        )
        &&& messages[3].1 is Occupants
        &&& names_company(messages[3].1->Occupants_0, realm, room, viewer)
    } else {
        messages.len() == 0
    }
}

proof fn lemma_directions_are_finite(exits: Map<Direction, text::Text>)
    ensures
        exits.dom().finite(),
{
    let all = direction::compass().to_set();
    assert forall|d: Direction| all.contains(d) by {
        direction::lemma_order_of_directions(d, d);
    }
    vstd::set_lib::lemma_set_subset_finite(all, exits.dom());
}

/// The exits of a room in order are those of all directions, in their order, in
/// which there is one.
proof fn lemma_exits_in_order(exits: Map<Direction, text::Text>)
    ensures
        sorted_map::in_order::<Direction, text::Text>(exits) == direction::compass().filter(
            |d: Direction| exits.contains_key(d),
        ),
{
    let open = |d: Direction| exits.contains_key(d);
    let all = direction::compass();
    let listed = sorted_map::in_order::<Direction, text::Text>(exits);
    let picked = all.filter(open);
    lemma_directions_are_finite(exits);
    sorted_map::lemma_finite_map_is_listed::<Direction, text::Text>(exits);
    assert forall|d: Direction| #![auto] listed.contains(d) <==> picked.contains(d) by {
        seqs::lemma_filter_contains(all, open, d);
        direction::lemma_order_of_directions(d, d);
        assert(listed.contains(d) <==> exits.contains_key(d));
    }
    lemma_picked_increases(open, 6);
    assert(all.take(6) =~= all);
    sorted_map::lemma_increasing_unique::<Direction>(listed, picked);
}

proof fn lemma_picked_increases(open: spec_fn(Direction) -> bool, n: int)
    requires
        0 <= n <= 6,
    ensures
        sorted_map::increasing::<Direction>(direction::compass().take(n).filter(open)),
    decreases n,
{
    let all = direction::compass();
    if n == 0 {
        seqs::lemma_filter_empty(all.take(0), open);
    } else {
        lemma_picked_increases(open, n - 1);
        let some = all.take(n - 1);
        let d = all[n - 1];
        assert(all.take(n) =~= some.push(d));
        seqs::lemma_filter_push(some, open, d);
        let kept = some.filter(open);
        assert forall|i: int| 0 <= i < kept.len() implies Direction::before(#[trigger] kept[i], d) by {
            assert(kept.contains(kept[i]));
            seqs::lemma_filter_contains(some, open, kept[i]);
            let j = choose|j: int| 0 <= j < some.len() && some[j] == kept[i];
            assert(all[j] == kept[i] && all[n - 1] == d);
            direction::lemma_order_of_directions(kept[i], d);
        }
    }
}

proof fn lemma_company_count(
    realm: RealmView,
    room: text::Text,
    viewer: text::Text,
    name: text::Text,
    keys: Seq<text::Text>,
    all: Seq<MobView>,
)
    requires
        keys.len() == all.len(),
        keys.no_duplicates(),
        forall|i: int|
            0 <= i < keys.len() ==> realm.mobs.contains_key(#[trigger] keys[i])
                && realm.mobs[keys[i]] == all[i],
    ensures
        namesakes(realm, room, viewer, name).intersect(keys.to_set()).finite(),
        all.filter(|m: MobView| m.location == room).filter(
            |m: MobView| m.id != viewer,
        ).map_values(|m: MobView| m.name).to_multiset().count(name) == namesakes(
            realm,
            room,
            viewer,
            name,
        ).intersect(keys.to_set()).len(),
    decreases keys.len(),
{
    broadcast use vstd::seq_lib::group_to_multiset_ensures;

    let here = |m: MobView| m.location == room;
    let other = |m: MobView| m.id != viewer;
    let f = |m: MobView| m.name;
    let same = namesakes(realm, room, viewer, name);
    if keys.len() == 0 {
        seqs::lemma_filter_empty(all, here);
        seqs::lemma_filter_empty(all.filter(here), other);
        assert(all.filter(here).filter(other).map_values(f) =~= seq![]);
        assert(same.intersect(keys.to_set()) =~= Set::empty());
    } else {
        let ks = keys.drop_last();
        let vs = all.drop_last();
        let k = keys.last();
        let v = all.last();
        assert(keys =~= ks.push(k));
        assert(all =~= vs.push(v));
        lemma_company_count(realm, room, viewer, name, ks, vs);
        seqs::lemma_filter_push(vs, here, v);
        if here(v) {
            seqs::lemma_filter_push(vs.filter(here), other, v);
        }
        let before = vs.filter(here).filter(other);
        if here(v) && other(v) {
            assert(before.push(v).map_values(f) =~= before.map_values(f).push(f(v)));
        }
        assert(!ks.to_set().contains(k)) by {
            if ks.to_set().contains(k) {
                let j = choose|j: int| 0 <= j < ks.len() && ks[j] == k;
                assert(keys[j] == keys[keys.len() - 1]);
            }
        }
        assert forall|id: text::Text| keys.to_set().contains(id) <==> ks.to_set().contains(id)
            || id == k by {
            seqs::lemma_push_contains(ks, k, id);
        }
        assert(realm.mobs[keys[keys.len() - 1]] == v);
        if same.contains(k) {
            assert(same.intersect(keys.to_set()) =~= same.intersect(ks.to_set()).insert(k));
        } else {
            assert(same.intersect(keys.to_set()) =~= same.intersect(ks.to_set()));
        }
    }
}

proof fn lemma_company(realm: RealmView, room: text::Text, viewer: text::Text)
    requires
        realm.mobs.dom().finite(),
    ensures
        names_company(
            dispatch::company(realm, room, viewer).map_values(
                |n: text::Text| crate::presentation::actor_span(n),
            ),
            realm,
            room,
            viewer,
        ),
{
    let keys = sorted_map::in_order::<EntityId, MobView>(realm.mobs);
    let all = sorted_map::values_in_order::<EntityId, MobView>(realm.mobs);
    sorted_map::lemma_finite_map_is_listed::<EntityId, MobView>(realm.mobs);
    let here = |m: MobView| m.location == room;
    let other = |m: MobView| m.id != viewer;
    let f = |m: MobView| m.name;
    let names = all.filter(here).filter(other).map_values(f);
    let leq = text::not_after();
    let company = dispatch::company(realm, room, viewer);
    text::lemma_not_after_total();
    names.lemma_sort_by_ensures(leq);
    assert(company == names.sort_by(leq));
    let g = |n: text::Text| crate::presentation::actor_span(n);
    let spans = company.map_values(g);
    assert(spans.map_values(|s: SpanView| s.text) =~= company);
    assert forall|i: int, j: int| 0 <= i < j < spans.len() implies !text::precedes(
        (#[trigger] spans[j]).text,
        (#[trigger] spans[i]).text,
    ) by {
        assert(leq(company[i], company[j]));
    }
    assert(keys.no_duplicates()) by {
        assert forall|i: int, j: int|
            0 <= i < keys.len() && 0 <= j < keys.len() && i != j implies keys[i] != keys[j] by {
            if i < j {
                assert(EntityId::before(keys[i], keys[j]));
            } else {
                assert(EntityId::before(keys[j], keys[i]));
            }
            EntityId::before_irreflexive(keys[i]);
        }
    }
    assert forall|i: int| 0 <= i < keys.len() implies realm.mobs.contains_key(#[trigger] keys[i])
        && realm.mobs[keys[i]] == all[i] by {
        assert(keys.contains(keys[i]));
    }
    assert forall|name: text::Text|
        #![trigger namesakes(realm, room, viewer, name)]
        spans.map_values(|s: SpanView| s.text).to_multiset().count(name) == namesakes(
            realm,
            room,
            viewer,
            name,
        ).len() by {
        lemma_company_count(realm, room, viewer, name, keys, all);
        let same = namesakes(realm, room, viewer, name);
        assert forall|id: text::Text| same.contains(id) implies keys.to_set().contains(id) by {
            assert(realm.mobs.contains_key(id));
            assert(keys.contains(id));
        }
        assert(same.intersect(keys.to_set()) =~= same);
        assert(names.to_multiset().count(name) == same.len());
    }
}

proof fn lemma_room_is_shown(realm: RealmView, room: text::Text, viewer: text::Text)
    requires
        realm.mobs.dom().finite(),
    ensures
        shows(
            dispatch::addressed(viewer, dispatch::room_view(realm, room, viewer)),
            realm,
            room,
            viewer,
        ),
{
    if realm.world.contains_key(room) {
        lemma_exits_in_order(realm.world[room].exits);
        lemma_company(realm, room, viewer);
    }
}

/// Looking shows the actor the room that the actor is in, changes nothing and is
/// recorded. In particular the exits that are shown are exactly the directions in
/// which the room has an exit, each once, in the order north, south, east, west,
/// up, down. An actor whom the realm does not have sees nothing.
pub proof fn lemma_looking(realm: RealmView, actor: text::Text)
    requires
        realm.mobs.dom().finite(),
    ensures
        ({
            let (after, out) = dispatch::dispatched(realm, IntentView::Look { actor });
            let room = realm.mobs[actor].location;
            &&& after == realm
            &&& realm.mobs.contains_key(actor) ==> out.events == seq![
                EventView::Looked { actor, room },
            ] && shows(out.messages, realm, room, actor)
            &&& !realm.mobs.contains_key(actor) ==> out.events.len() == 0 && out.messages.len()
                == 0
        }),
{
    lemma_room_is_shown(realm, realm.mobs[actor].location, actor);
}

// ---------------------------------------------------------------------------
// What comes of a move
// ---------------------------------------------------------------------------

/// What the effects of a handler of `owner` tell: a text for the actor goes to the
/// actor, one for the owner to the owner, where there is one, in their order.
pub open spec fn told(
    effects: Seq<EffectView>,
    owner: Option<text::Text>,
    actor: text::Text,
) -> Seq<(text::Text, NodeView)>
    decreases effects.len(),
{
    if effects.len() == 0 {
        seq![]
    } else {
        let earlier = told(effects.drop_last(), owner, actor);
        match effects.last() {
            EffectView::Narrate(Party::Actor, t) => earlier.push(
                (actor, NodeView::Line(seq![SpanView { text: t, role: Role::Default }])),
            ),
            EffectView::Narrate(Party::SelfMob, t) => if owner is Some {
                earlier.push(
                    (owner->0, NodeView::Line(seq![SpanView { text: t, role: Role::Default }])),
                )
            } else {
                earlier
            },
        }
    }
}

proof fn lemma_told(c: CandidateView, effects: Seq<EffectView>, actor: text::Text)
    requires
        c.effects == effects,
    ensures
        dispatch::narration(c, actor) == told(effects, c.self_id, actor),
    decreases effects.len(),
{
    let p = dispatch::reaches(c.self_id, actor);
    let f = dispatch::message(c.self_id, actor);
    if effects.len() == 0 {
        seqs::lemma_filter_empty(effects, p);
        assert(dispatch::narration(c, actor) =~= seq![]);
    } else {
        let rest = effects.drop_last();
        let e = effects.last();
        lemma_told(CandidateView { effects: rest, ..c }, rest, actor);
        assert(effects =~= rest.push(e));
        seqs::lemma_filter_push(rest, p, e);
        let kept = rest.filter(p);
        assert(kept.push(e).map_values(f) =~= kept.map_values(f).push(f(e)));
    }
}

/// Whether `w` is said when `actor` moves in a direction, and is unsurpassed among
/// all that is said to the same effect.
pub open spec fn prevails(
    realm: RealmView,
    actor: text::Text,
    direction: Direction,
    w: CandidateView,
) -> bool {
    &&& is_said(realm, actor, direction, w)
    &&& forall|c: CandidateView| #[trigger]
        is_said(realm, actor, direction, c) && (c.outcome is Block <==> w.outcome is Block) && (
        c.outcome is Traverse <==> w.outcome is Traverse) ==> resolve::unsurpassed(seq![c], w)
}

/// A move that somebody or some rule blocks changes nothing and is not recorded,
/// and what the actor and the owner are told is what a most salient blocker says.
pub proof fn lemma_blocked_move(
    realm: RealmView,
    actor: text::Text,
    direction: Direction,
    c: CandidateView,
)
    requires
        realm.mobs.dom().finite(),
        is_said(realm, actor, direction, c),
        c.outcome is Block,
    ensures
        ({
            let (after, out) = dispatch::dispatched(realm, IntentView::Move { actor, direction });
            &&& after == realm
            &&& out.events.len() == 0
            &&& exists|w: CandidateView| #[trigger]
                prevails(realm, actor, direction, w) && w.outcome is Block && out.messages == told(
                    w.effects,
                    w.self_id,
                    actor,
                )
        }),
{
    let intent = IntentView::Move { actor, direction };
    let all = gather::candidates(realm, intent);
    lemma_everyone_with_a_say_is_heard(realm, actor, direction, c);
    resolve::lemma_block_denies(all, c);
    let s = all.filter(resolve::blocks());
    seqs::lemma_filter_contains(all, resolve::blocks(), c);
    assert(s.len() > 0);
    resolve::lemma_most_salient_is_unsurpassed(s);
    let w = resolve::most_salient(s)->0;
    let i = choose|i: int| #![trigger s[i]] 0 <= i < s.len() && s[i] == w;
    assert(s.contains(w));
    seqs::lemma_filter_contains(all, resolve::blocks(), w);
    lemma_everyone_with_a_say_is_heard(realm, actor, direction, w);
    assert forall|x: CandidateView| #[trigger]
        is_said(realm, actor, direction, x) && x.outcome is Block implies resolve::unsurpassed(
        seq![x],
        w,
    ) by {
        lemma_everyone_with_a_say_is_heard(realm, actor, direction, x);
        seqs::lemma_filter_contains(all, resolve::blocks(), x);
        let j = choose|j: int| 0 <= j < s.len() && s[j] == x;
        lemma_unsurpassed_each(s, w, j);
    }
    lemma_told(w, w.effects, actor);
    assert(prevails(realm, actor, direction, w));
}

proof fn lemma_unsurpassed_each(s: Seq<CandidateView>, w: CandidateView, j: int)
    requires
        resolve::unsurpassed(s, w),
        0 <= j < s.len(),
    ensures
        resolve::unsurpassed(seq![s[j]], w),
{
    assert(seq![s[j]][0] == s[j]);
}

/// A move that nobody blocks, and that the exit or somebody's handler lets through,
/// takes the actor where a most salient of these leads, and nothing else about the
/// realm changes. It is recorded; the actor is told what that one says, then shown
/// the room of arrival as it is on arrival.
pub proof fn lemma_free_move(
    realm: RealmView,
    actor: text::Text,
    direction: Direction,
    c: CandidateView,
)
    requires
        realm.mobs.dom().finite(),
        is_said(realm, actor, direction, c),
        c.outcome is Traverse,
        forall|x: CandidateView| #[trigger]
            is_said(realm, actor, direction, x) ==> !(x.outcome is Block),
    ensures
        ({
            let (after, out) = dispatch::dispatched(realm, IntentView::Move { actor, direction });
            exists|w: CandidateView, to: text::Text, view: Seq<(text::Text, NodeView)>|
                #![trigger prevails(realm, actor, direction, w), shows(view, after, to, actor)]
                prevails(realm, actor, direction, w) && w.outcome == OutcomeView::Traverse(to)
                    && after == (RealmView {
                    mobs: realm.mobs.insert(
                        actor,
                        MobView { location: to, ..realm.mobs[actor] },
                    ),
                    ..realm
                }) && out.events == seq![
                    EventView::Moved { actor, from: realm.mobs[actor].location, to },
                ] && out.messages == told(w.effects, w.self_id, actor) + view && shows(
                    view,
                    after,
                    to,
                    actor,
                )
        }),
{
    let intent = IntentView::Move { actor, direction };
    let all = gather::candidates(realm, intent);
    let (after, out) = dispatch::dispatched(realm, intent);
    let s = all.filter(resolve::traverses());
    lemma_everyone_with_a_say_is_heard(realm, actor, direction, c);
    resolve::lemma_resolution(all);
    assert forall|i: int| 0 <= i < all.len() implies !((#[trigger] all[i]).outcome is Block) by {
        assert(all.contains(all[i]));
        lemma_everyone_with_a_say_is_heard(realm, actor, direction, all[i]);
    }
    let k = choose|k: int| 0 <= k < all.len() && all[k] == c;
    assert(!(all[k].outcome is Allow));
    seqs::lemma_filter_contains(all, resolve::traverses(), c);
    assert(s.len() > 0);
    resolve::lemma_most_salient_is_unsurpassed(s);
    let w = resolve::most_salient(s)->0;
    let i = choose|i: int| #![trigger s[i]] 0 <= i < s.len() && s[i] == w;
    assert(s.contains(w));
    seqs::lemma_filter_contains(all, resolve::traverses(), w);
    lemma_everyone_with_a_say_is_heard(realm, actor, direction, w);
    assert forall|x: CandidateView| #[trigger]
        is_said(realm, actor, direction, x) && x.outcome is Traverse implies resolve::unsurpassed(
        seq![x],
        w,
    ) by {
        lemma_everyone_with_a_say_is_heard(realm, actor, direction, x);
        seqs::lemma_filter_contains(all, resolve::traverses(), x);
        let j = choose|j: int| 0 <= j < s.len() && s[j] == x;
        lemma_unsurpassed_each(s, w, j);
    }
    lemma_told(w, w.effects, actor);
    assert(prevails(realm, actor, direction, w));
    let to = w.outcome->Traverse_0;
    assert(resolve::decided(all) == crate::fabric::resolve::DecisionView::Allowed {
        destination: to,
    });
    let view = dispatch::addressed(actor, dispatch::room_view(after, to, actor));
    assert(after.mobs.dom() =~= realm.mobs.dom().insert(actor));
    lemma_room_is_shown(after, to, actor);
    assert(shows(view, after, to, actor));
}

/// A move that nobody blocks and nothing lets through changes nothing and is not
/// recorded; the actor, and nobody else, is told that there is no exit. The move of
/// an actor whom the realm does not have comes to nothing.
pub proof fn lemma_move_that_leads_nowhere(
    realm: RealmView,
    actor: text::Text,
    direction: Direction,
)
    requires
        realm.mobs.dom().finite(),
        forall|x: CandidateView| #[trigger]
            is_said(realm, actor, direction, x) ==> x.outcome is Allow,
    ensures
        ({
            let (after, out) = dispatch::dispatched(realm, IntentView::Move { actor, direction });
            &&& after == realm
            &&& out.events.len() == 0
            &&& realm.mobs.contains_key(actor) ==> out.messages == seq![
                (
                    actor,
                    NodeView::Denied(
                        seq![SpanView { text: realm.no_exit_message, role: Role::Default }],
                    ),
                ),
            ]
            &&& !realm.mobs.contains_key(actor) ==> out.messages.len() == 0
        }),
{
    let all = gather::candidates(realm, IntentView::Move { actor, direction });
    resolve::lemma_resolution(all);
    assert forall|i: int| 0 <= i < all.len() implies (#[trigger] all[i]).outcome is Allow by {
        assert(all.contains(all[i]));
        lemma_everyone_with_a_say_is_heard(realm, actor, direction, all[i]);
    }
}

/// Somebody in the room can stop a move. Where a mob in the actor's room, other
/// than the actor, has a responder for that direction, or for any, that blocks and
/// whose conditions are met, the move changes nothing and is not recorded.
pub proof fn lemma_a_responder_can_stop_a_move(
    realm: RealmView,
    actor: text::Text,
    direction: Direction,
    id: text::Text,
    k: int,
)
    requires
        realm.mobs.dom().finite(),
        realm.mobs.contains_key(actor),
        realm.mobs.contains_key(id),
        realm.mobs[id].location == realm.mobs[actor].location,
        realm.mobs[id].id != actor,
        0 <= k < realm.mobs[id].responders.len(),
        realm.mobs[id].responders[k].on == Trigger::Move(direction)
            || realm.mobs[id].responders[k].on == Trigger::AnyMove,
        forall|i: int|
            0 <= i < realm.mobs[id].responders[k].require.len() ==> met(
                realm,
                #[trigger] realm.mobs[id].responders[k].require[i],
                Some(realm.mobs[id].id),
                actor,
            ),
        realm.mobs[id].responders[k].outcome is Block,
    ensures
        dispatch::dispatched(realm, IntentView::Move { actor, direction }).0 == realm,
        dispatch::dispatched(realm, IntentView::Move { actor, direction }).1.events.len() == 0,
{
    let m = realm.mobs[id];
    let c = voice(Band::Participant, Some(m.id), m.responders[k]);
    assert(says_mob(realm, m.location, actor, direction, id, k, c));
    lemma_blocked_move(realm, actor, direction, c);
}

/// A rule can stop a move. Where a rule for that direction, or for any, blocks and
/// its conditions are met, the move changes nothing and is not recorded.
pub proof fn lemma_a_rule_can_stop_a_move(
    realm: RealmView,
    actor: text::Text,
    direction: Direction,
    k: int,
)
    requires
        realm.mobs.dom().finite(),
        realm.mobs.contains_key(actor),
        0 <= k < realm.rules.len(),
        realm.rules[k].on == Trigger::Move(direction) || realm.rules[k].on == Trigger::AnyMove,
        forall|i: int|
            0 <= i < realm.rules[k].require.len() ==> met(
                realm,
                #[trigger] realm.rules[k].require[i],
                None,
                actor,
            ),
        realm.rules[k].outcome is Block,
    ensures
        dispatch::dispatched(realm, IntentView::Move { actor, direction }).0 == realm,
        dispatch::dispatched(realm, IntentView::Move { actor, direction }).1.events.len() == 0,
{
    let c = voice(Band::Global, None, realm.rules[k]);
    assert(says_rule(realm, actor, direction, k, c));
    lemma_blocked_move(realm, actor, direction, c);
}

/// Those in a room are found in the order of their ids, each once, where every mob is
/// kept at its own id.
pub proof fn lemma_present_come_by_id(realm: RealmView, room: text::Text, i: int, j: int)
    requires
        realm.mobs.dom().finite(),
        realm.consistent(),
        0 <= i < j < realm.present(room).len(),
    ensures
        text::precedes(realm.present(room)[i].id, realm.present(room)[j].id),
{
    sorted_map::lemma_finite_map_is_listed::<EntityId, MobView>(realm.mobs);
    let keys = sorted_map::in_order::<EntityId, MobView>(realm.mobs);
    let all = sorted_map::values_in_order::<EntityId, MobView>(realm.mobs);
    let here = |m: MobView| m.location == room;
    assert forall|a: int, b: int| 0 <= a < b < all.len() implies text::precedes(
        (#[trigger] all[a]).id,
        (#[trigger] all[b]).id,
    ) by {
        assert(keys.contains(keys[a]) && keys.contains(keys[b]));
        assert(realm.mobs.contains_key(keys[a]) && realm.mobs.contains_key(keys[b]));
        assert(EntityId::before(keys[a], keys[b]));
    }
    lemma_picked_come_by_id(all, here);
    assert(realm.present(room) == all.filter(here));
}

proof fn lemma_picked_come_by_id(s: Seq<MobView>, p: spec_fn(MobView) -> bool)
    requires
        forall|a: int, b: int|
            0 <= a < b < s.len() ==> text::precedes((#[trigger] s[a]).id, (#[trigger] s[b]).id),
    ensures
        forall|a: int, b: int|
            0 <= a < b < s.filter(p).len() ==> text::precedes(
                (#[trigger] s.filter(p)[a]).id,
                (#[trigger] s.filter(p)[b]).id,
            ),
    decreases s.len(),
{
    if s.len() == 0 {
        seqs::lemma_filter_empty(s, p);
    } else {
        let front = s.drop_last();
        let last = s.last();
        assert forall|a: int, b: int| 0 <= a < b < front.len() implies text::precedes(
            (#[trigger] front[a]).id,
            (#[trigger] front[b]).id,
        ) by {
            assert(front[a] == s[a] && front[b] == s[b]);
        }
        lemma_picked_come_by_id(front, p);
        assert(s =~= front.push(last));
        seqs::lemma_filter_push(front, p, last);
        let kept = front.filter(p);
        assert forall|a: int| 0 <= a < kept.len() implies text::precedes(
            (#[trigger] kept[a]).id,
            last.id,
        ) by {
            assert(kept.contains(kept[a]));
            seqs::lemma_filter_contains(front, p, kept[a]);
            let k = choose|k: int| 0 <= k < front.len() && front[k] == kept[a];
            assert(s[k] == kept[a] && s[s.len() - 1] == last);
        }
    }
}

// ---------------------------------------------------------------------------
// Who hears a look
// ---------------------------------------------------------------------------

/// Whether a handler of `owner` listens for looks, and its conditions are met when
/// `actor` looks.
pub open spec fn watches(
    realm: RealmView,
    h: HandlerView,
    owner: Option<text::Text>,
    actor: text::Text,
) -> bool {
    &&& h.on == Trigger::Look
    &&& forall|i: int| 0 <= i < h.require.len() ==> met(realm, #[trigger] h.require[i], owner, actor)
}

/// Whether `c` is what the `k`-th responder of the mob at `id` says to a look of
/// `actor`, who is in the same room.
pub open spec fn mob_watches(
    realm: RealmView,
    actor: text::Text,
    id: text::Text,
    k: int,
    c: CandidateView,
) -> bool {
    let m = realm.mobs[id];
    &&& realm.mobs.contains_key(id)
    &&& m.location == realm.mobs[actor].location
    &&& m.id != actor
    &&& 0 <= k < m.responders.len()
    &&& watches(realm, m.responders[k], Some(m.id), actor)
    &&& c == voice(Band::Participant, Some(m.id), m.responders[k])
}

/// Whether `c` is what the `k`-th rule says to a look of `actor`.
pub open spec fn rule_watches(
    realm: RealmView,
    actor: text::Text,
    k: int,
    c: CandidateView,
) -> bool {
    &&& 0 <= k < realm.rules.len()
    &&& watches(realm, realm.rules[k], None, actor)
    &&& c == voice(Band::Global, None, realm.rules[k])
}

proof fn lemma_watching(
    realm: RealmView,
    actor: text::Text,
    band: Band,
    owner: Option<text::Text>,
    handlers: Seq<HandlerView>,
    c: CandidateView,
)
    ensures
        gather::contributions(
            realm,
            IntentView::Look { actor },
            band,
            owner,
            handlers,
        ).contains(c) <==> exists|k: int|
            #![trigger handlers[k]]
            0 <= k < handlers.len() && watches(realm, handlers[k], owner, actor) && c == voice(
                band,
                owner,
                handlers[k],
            ),
{
    let intent = IntentView::Look { actor };
    let p = gather::applies(realm, intent, owner);
    let f = gather::contribution(band, owner);
    let kept = handlers.filter(p);
    assert forall|h: HandlerView| #[trigger] p(h) <==> watches(realm, h, owner, actor) by {
        crate::fabric::trigger::lemma_what_triggers_hear(
            actor,
            Direction::North,
            if h.on is Move {
                h.on->Move_0
            } else {
                Direction::North
            },
        );
        assert forall|i: int| 0 <= i < h.require.len() implies (predicate::holds(
            realm,
            #[trigger] h.require[i],
            owner,
            actor,
        ) <==> met(realm, h.require[i], owner, actor)) by {
            let o = if owner is Some {
                owner->0
            } else {
                actor
            };
            predicate::lemma_whose_flags_count(realm, o, actor, owner);
        }
    }
    if kept.map_values(f).contains(c) {
        let i = choose|i: int| 0 <= i < kept.map_values(f).len() && kept.map_values(f)[i] == c;
        assert(kept.contains(kept[i]));
        seqs::lemma_filter_contains(handlers, p, kept[i]);
        let k = choose|k: int| 0 <= k < handlers.len() && handlers[k] == kept[i];
        assert(p(handlers[k]));
        assert(c == voice(band, owner, handlers[k]));
    }
    if exists|k: int|
        #![trigger handlers[k]]
        0 <= k < handlers.len() && watches(realm, handlers[k], owner, actor) && c == voice(
            band,
            owner,
            handlers[k],
        ) {
        let k = choose|k: int|
            #![trigger handlers[k]]
            0 <= k < handlers.len() && watches(realm, handlers[k], owner, actor) && c == voice(
                band,
                owner,
                handlers[k],
            );
        assert(p(handlers[k]));
        assert(handlers.contains(handlers[k]));
        seqs::lemma_filter_contains(handlers, p, handlers[k]);
        let i = choose|i: int| 0 <= i < kept.len() && kept[i] == handlers[k];
        assert(kept.map_values(f)[i] == c);
    }
}

/// The candidates of a look are exactly what is said to it by the handlers for looks
/// whose conditions are met: those of other mobs in the room, and the rules.
pub proof fn lemma_everyone_who_watches_is_heard(
    realm: RealmView,
    actor: text::Text,
    c: CandidateView,
)
    requires
        realm.mobs.dom().finite(),
    ensures
        gather::candidates(realm, IntentView::Look { actor }).contains(c) <==> {
            &&& realm.mobs.contains_key(actor)
            &&& {
                ||| exists|id: text::Text, k: int| mob_watches(realm, actor, id, k, c)
                ||| exists|k: int| rule_watches(realm, actor, k, c)
            }
        },
{
    let intent = IntentView::Look { actor };
    let room = realm.mobs[actor].location;
    if realm.mobs.contains_key(actor) {
        let s = gather::structure_candidates(realm, intent, room);
        let q = gather::participant_candidates(realm, intent, room);
        let g = gather::contributions(realm, intent, Band::Global, None, realm.rules);
        let all = gather::candidates(realm, intent);
        let each = gather::mob_candidates(realm, intent);
        let present = realm.present(room);
        let parts = present.map_values(each);
        assert(s.len() == 0);
        assert(all =~= q + g);
        lemma_watching(realm, actor, Band::Global, None, realm.rules, c);
        if all.contains(c) {
            let n = choose|n: int| 0 <= n < all.len() && all[n] == c;
            if n < q.len() {
                assert(q[n] == c);
                seqs::lemma_flatten_contains(parts, c);
                let i = choose|i: int| 0 <= i < parts.len() && (#[trigger] parts[i]).contains(c);
                let m = present[i];
                assert(present.contains(m));
                lemma_present_are_those_located_there(realm, room, m);
                let id = choose|id: text::Text| #[trigger]
                    realm.mobs.contains_key(id) && realm.mobs[id] == m && m.location == room;
                lemma_watching(realm, actor, Band::Participant, Some(m.id), m.responders, c);
                let k = choose|k: int|
                    #![trigger m.responders[k]]
                    0 <= k < m.responders.len() && watches(
                        realm,
                        m.responders[k],
                        Some(m.id),
                        actor,
                    ) && c == voice(Band::Participant, Some(m.id), m.responders[k]);
                assert(mob_watches(realm, actor, id, k, c));
            } else {
                assert(g[n - q.len()] == c);
                assert(g.contains(c));
                let k = choose|k: int|
                    #![trigger realm.rules[k]]
                    0 <= k < realm.rules.len() && watches(realm, realm.rules[k], None, actor) && c
                        == voice(Band::Global, None, realm.rules[k]);
                assert(rule_watches(realm, actor, k, c));
            }
        }
        if exists|id: text::Text, k: int| mob_watches(realm, actor, id, k, c) {
            let (id, k) = choose|id: text::Text, k: int| mob_watches(realm, actor, id, k, c);
            let m = realm.mobs[id];
            lemma_present_are_those_located_there(realm, room, m);
            let i = choose|i: int| 0 <= i < present.len() && present[i] == m;
            assert(m.responders[k] == m.responders[k]);
            lemma_watching(realm, actor, Band::Participant, Some(m.id), m.responders, c);
            assert(parts[i] == each(m));
            let n = choose|n: int| 0 <= n < parts[i].len() && parts[i][n] == c;
            let o = seqs::lemma_flatten_part(parts, i);
            assert(parts.flatten()[o + n] == parts[i][n]);
            assert(all[o + n] == c);
        }
        if exists|k: int| rule_watches(realm, actor, k, c) {
            let k = choose|k: int| rule_watches(realm, actor, k, c);
            assert(realm.rules[k] == realm.rules[k]);
            let n = choose|n: int| 0 <= n < g.len() && g[n] == c;
            assert(all[q.len() + n] == c);
        }
    }
}

} // verus!
