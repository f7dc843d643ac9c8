//! Who has a say in an intent, computed from current state.

use vstd::prelude::*;

use crate::fabric::handler::{
    Band, Effect, EffectView, HandlerView, Outcome, OutcomeView, Responder, Rule,
};
use crate::fabric::intent::{Intent, IntentView};
use crate::fabric::predicate::{self, Predicate};
use crate::id::EntityId;
use crate::mob::{Mob, MobView};
use crate::realm::{Realm, RealmView};
use crate::seqs;
use crate::sorted_map::{clone_all, Ordered};
use crate::text;

verus! {

/// A resolved handler contribution for one dispatch, after predicate filtering.
#[derive(Debug, PartialEq)]
pub struct Candidate {
    pub band: Band,
    pub priority: i32,
    pub self_id: Option<EntityId>,
    pub outcome: Outcome,
    pub effects: Vec<Effect>,
}

pub struct CandidateView {
    pub band: Band,
    pub priority: i32,
    pub self_id: Option<text::Text>,
    pub outcome: OutcomeView,
    pub effects: Seq<EffectView>,
}

impl View for Candidate {
    type V = CandidateView;

    open spec fn view(&self) -> CandidateView {
        CandidateView {
            band: self.band,
            priority: self.priority,
            self_id: text::opt_view(self.self_id),
            outcome: self.outcome@,
            effects: text::views(self.effects@),
        }
    }
}

impl Clone for Candidate {
    fn clone(&self) -> (r: Candidate)
        ensures
            r@ == self@,
    {
        Candidate {
            band: self.band,
            priority: self.priority,
            self_id: self.self_id.clone(),
            outcome: self.outcome.clone(),
            effects: clone_all(&self.effects),
        }
    }
}

/// Whether all the conditions hold.
pub open spec fn passes(
    realm: RealmView,
    require: Seq<Predicate>,
    self_id: Option<text::Text>,
    actor: text::Text,
) -> bool {
    forall|i: int|
        0 <= i < require.len() ==> predicate::holds(realm, #[trigger] require[i], self_id, actor)
}

/// Whether a handler of `self_id` takes part in `intent`.
pub open spec fn applies(
    realm: RealmView,
    intent: IntentView,
    self_id: Option<text::Text>,
) -> spec_fn(HandlerView) -> bool {
    |h: HandlerView|
        crate::fabric::trigger::hears(h.on, intent) && passes(realm, h.require, self_id, intent.actor())
}

/// What a handler contributes.
pub open spec fn contribution(band: Band, self_id: Option<text::Text>) -> spec_fn(
    HandlerView,
) -> CandidateView {
    |h: HandlerView|
        CandidateView {
            band,
            priority: h.priority,
            self_id,
            outcome: h.outcome,
            effects: h.effects,
        }
}

/// What a list of handlers contributes, in order.
pub open spec fn contributions(
    realm: RealmView,
    intent: IntentView,
    band: Band,
    self_id: Option<text::Text>,
    handlers: Seq<HandlerView>,
) -> Seq<CandidateView> {
    handlers.filter(applies(realm, intent, self_id)).map_values(contribution(band, self_id))
}

/// The exit of the room that a movement takes, if there is one.
pub open spec fn structure_candidates(
    realm: RealmView,
    intent: IntentView,
    room: text::Text,
) -> Seq<CandidateView> {
    match intent {
        IntentView::Move { direction, .. } => if realm.world.contains_key(room)
            && realm.world[room].exits.contains_key(direction) {
            seq![
                CandidateView {
                    band: Band::Structure,
                    priority: 0,
                    self_id: None,
                    outcome: OutcomeView::Traverse(realm.world[room].exits[direction]),
                    effects: seq![],
                },
            ]
        } else {
            seq![]
        },
        IntentView::Look { .. } => seq![],
    }
}

/// What one mob contributes; the actor itself contributes nothing.
pub open spec fn mob_candidates(realm: RealmView, intent: IntentView) -> spec_fn(MobView) -> Seq<
    CandidateView,
> {
    |m: MobView|
        if m.id == intent.actor() {
            seq![]
        } else {
            contributions(realm, intent, Band::Participant, Some(m.id), m.responders)
        }
}

/// What the mobs in the room contribute, by increasing id.
pub open spec fn participant_candidates(
    realm: RealmView,
    intent: IntentView,
    room: text::Text,
) -> Seq<CandidateView> {
    realm.present(room).map_values(mob_candidates(realm, intent)).flatten()
}

/// The candidates for `intent`: the exit, then the mobs, then the rules. An
/// actor who is nowhere has none.
pub open spec fn candidates(realm: RealmView, intent: IntentView) -> Seq<CandidateView> {
    match realm.location(intent.actor()) {
        Some(room) => structure_candidates(realm, intent, room) + participant_candidates(
            realm,
            intent,
            room,
        ) + contributions(realm, intent, Band::Global, None, realm.rules),
        None => seq![],
    }
}

fn require_passes(
    realm: &Realm,
    require: &[Predicate],
    self_id: Option<&EntityId>,
    actor: &EntityId,
) -> (r: bool)
    ensures
        r == passes(realm@, require@, text::opt_view(self_id), actor@),
{
    for i in 0..require.len()
        invariant
            forall|j: int|
                0 <= j < i ==> predicate::holds(
                    realm@,
                    #[trigger] require@[j],
                    text::opt_view(self_id),
                    actor@,
                ),
    {
        if !predicate::eval(realm, &require[i], self_id, actor) {
            return false;
        }
    }
    true
}

/// Appends the contributions of a mob's responders.
fn gather_responders(
    realm: &Realm,
    intent: &Intent,
    id: &EntityId,
    responders: &Vec<Responder>,
    out: &mut Vec<Candidate>,
)
    ensures
        text::views(final(out)@) == text::views(old(out)@) + contributions(
            realm@,
            intent@,
            Band::Participant,
            Some(id@),
            text::views(responders@),
        ),
{
    let ghost start = text::views(out@);
    let ghost p = applies(realm@, intent@, Some(id@));
    let ghost f = contribution(Band::Participant, Some(id@));
    proof {
        seqs::lemma_filter_empty(text::views(responders@.take(0)), p);
        assert(start =~= start + text::views(responders@.take(0)).filter(p).map_values(f));
    }
    for i in 0..responders.len()
        invariant
            p == applies(realm@, intent@, Some(id@)),
            f == contribution(Band::Participant, Some(id@)),
            text::views(out@) == start + text::views(responders@.take(i as int)).filter(
                p,
            ).map_values(f),
    {
        let responder = &responders[i];
        let ghost seen = text::views(responders@.take(i as int));
        proof {
            assert(text::views(responders@.take(i + 1)) =~= seen.push(responder@));
            seqs::lemma_filter_push(seen, p, responder@);
        }
        let heard = responder.on.matches(intent);
        if heard && require_passes(realm, &responder.require, Some(id), intent.actor()) {
            let candidate = Candidate {
                band: Band::Participant,
                priority: responder.priority,
                self_id: Some(id.clone()),
                outcome: responder.outcome.clone(),
                effects: clone_all(&responder.effects),
            };
            let ghost before = text::views(out@);
            out.push(candidate);
            proof {
                assert(text::views(out@) =~= before.push(candidate@));
                assert(seen.filter(p).push(responder@).map_values(f) =~= seen.filter(p).map_values(
                    f,
                ).push(f(responder@)));
                assert(text::views(out@) =~= start + seen.filter(p).push(responder@).map_values(f));
            }
        }
    }
    assert(responders@.take(responders@.len() as int) =~= responders@);
}

/// Appends the contributions of the global rules.
fn gather_rules(realm: &Realm, intent: &Intent, rules: &Vec<Rule>, out: &mut Vec<Candidate>)
    ensures
        text::views(final(out)@) == text::views(old(out)@) + contributions(
            realm@,
            intent@,
            Band::Global,
            None,
            text::views(rules@),
        ),
{
    let ghost start = text::views(out@);
    let ghost p = applies(realm@, intent@, None);
    let ghost f = contribution(Band::Global, None);
    proof {
        seqs::lemma_filter_empty(text::views(rules@.take(0)), p);
        assert(start =~= start + text::views(rules@.take(0)).filter(p).map_values(f));
    }
    for i in 0..rules.len()
        invariant
            p == applies(realm@, intent@, None),
            f == contribution(Band::Global, None),
            text::views(out@) == start + text::views(rules@.take(i as int)).filter(p).map_values(f),
    {
        let rule = &rules[i];
        let ghost seen = text::views(rules@.take(i as int));
        proof {
            assert(text::views(rules@.take(i + 1)) =~= seen.push(rule@));
            seqs::lemma_filter_push(seen, p, rule@);
        }
        let heard = rule.on.matches(intent);
        if heard && require_passes(realm, &rule.require, None, intent.actor()) {
            let candidate = Candidate {
                band: Band::Global,
                priority: rule.priority,
                self_id: None,
                outcome: rule.outcome.clone(),
                effects: clone_all(&rule.effects),
            };
            let ghost before = text::views(out@);
            out.push(candidate);
            proof {
                assert(text::views(out@) =~= before.push(candidate@));
                assert(seen.filter(p).push(rule@).map_values(f) =~= seen.filter(p).map_values(
                    f,
                ).push(f(rule@)));
                assert(text::views(out@) =~= start + seen.filter(p).push(rule@).map_values(f));
            }
        }
    }
    assert(rules@.take(rules@.len() as int) =~= rules@);
}

/// Compute candidate handlers for `intent` from current state. Never cached.
pub fn gather(realm: &Realm, intent: &Intent) -> (r: Vec<Candidate>)
    ensures
        text::views(r@) == candidates(realm@, intent@),
{
    let actor = intent.actor();
    let mut out: Vec<Candidate> = Vec::new();
    assert(text::views(out@) =~= seq![]);
    let room_id = match realm.mob_location(actor) {
        Some(room) => room.clone(),
        None => return out,
    };

    // Structure band: the room's own exits (Move only).
    if let Intent::Move { direction, .. } = intent {
        if let Some(room) = realm.world.room(&room_id) {
            if let Some(dest) = room.exits.get(direction) {
                out.push(
                    Candidate {
                        band: Band::Structure,
                        priority: 0,
                        self_id: None,
                        outcome: Outcome::Traverse(dest.clone()),
                        effects: Vec::new(),
                    },
                );
                assert(out@[0]@.effects =~= seq![]);
            }
        }
    }
    let ghost structure = structure_candidates(realm@, intent@, room_id@);
    assert(text::views(out@) =~= structure);

    // Participant band: co-present mobs (excluding the actor).
    let present = realm.mobs_in_room(&room_id);
    let ghost each = mob_candidates(realm@, intent@);
    assert(text::views(present@.take(0)).map_values(each) =~= seq![]);
    assert(structure =~= structure + text::views(present@.take(0)).map_values(each).flatten());
    for i in 0..present.len()
        invariant
            each == mob_candidates(realm@, intent@),
            actor@ == intent@.actor(),
            text::views(out@) == structure + text::views(present@.take(i as int)).map_values(
                each,
            ).flatten(),
    {
        let mob: &Mob = present[i];
        let ghost seen = text::views(present@.take(i as int));
        proof {
            assert(text::views(present@.take(i + 1)) =~= seen.push(mob@));
            assert(seen.push(mob@).map_values(each) =~= seen.map_values(each).push(each(mob@)));
            seen.map_values(each).lemma_flatten_push(each(mob@));
        }
        if !mob.id.is_same(actor) {
            gather_responders(realm, intent, &mob.id, &mob.responders, &mut out);
        }
        assert(text::views(out@) =~= structure + seen.push(mob@).map_values(each).flatten());
    }
    assert(present@.take(present@.len() as int) =~= present@);

    // Global band: rules.
    gather_rules(realm, intent, &realm.rules, &mut out);
    out
}

// ---------------------------------------------------------------------------
// Laws
// ---------------------------------------------------------------------------

/// Whether `c` is what the handler `h` of `self_id` contributes in this state.
pub open spec fn comes_from(
    realm: RealmView,
    intent: IntentView,
    c: CandidateView,
    self_id: Option<text::Text>,
    h: HandlerView,
) -> bool {
    &&& crate::fabric::trigger::hears(h.on, intent)
    &&& passes(realm, h.require, self_id, intent.actor())
    &&& c == contribution(c.band, self_id)(h)
}

proof fn lemma_contribution_origin(
    realm: RealmView,
    intent: IntentView,
    band: Band,
    self_id: Option<text::Text>,
    handlers: Seq<HandlerView>,
    c: CandidateView,
)
    requires
        contributions(realm, intent, band, self_id, handlers).contains(c),
    ensures
        c.band == band,
        c.self_id == self_id,
        exists|h: HandlerView| #[trigger]
            handlers.contains(h) && comes_from(realm, intent, c, self_id, h),
{
    let p = applies(realm, intent, self_id);
    let kept = handlers.filter(p);
    let all = contributions(realm, intent, band, self_id, handlers);
    let k = choose|k: int| 0 <= k < all.len() && all[k] == c;
    let h = kept[k];
    assert(kept.contains(h));
    seqs::lemma_filter_contains(handlers, p, h);
    assert(handlers.contains(h) && comes_from(realm, intent, c, self_id, h));
}

/// Where candidates come from, band by band. An exit of the actor's room gives
/// the structure candidate of a move. A participant candidate comes from a
/// responder of a mob in the actor's room, other than the actor, that listens
/// for the intent and whose conditions hold right now. A global candidate comes
/// from such a rule.
pub proof fn lemma_candidate_origin(realm: RealmView, intent: IntentView, c: CandidateView)
    requires
        candidates(realm, intent).contains(c),
    ensures
        realm.location(intent.actor()) is Some,
        match c.band {
            Band::Structure => {
                let room = realm.location(intent.actor())->0;
                &&& intent is Move
                &&& realm.world.contains_key(room)
                &&& realm.world[room].exits.contains_key(intent->direction)
                &&& c.outcome == OutcomeView::Traverse(realm.world[room].exits[intent->direction])
                &&& c.self_id is None
            },
            Band::Participant => exists|m: MobView, h: HandlerView|
                #![trigger m.responders.contains(h)]
                {
                    &&& realm.present(realm.location(intent.actor())->0).contains(m)
                    &&& m.id != intent.actor()
                    &&& c.self_id == Some(m.id)
                    &&& m.responders.contains(h)
                    &&& comes_from(realm, intent, c, Some(m.id), h)
                },
            Band::Global => c.self_id is None && exists|h: HandlerView| #[trigger]
                realm.rules.contains(h) && comes_from(realm, intent, c, None, h),
        },
{
    let room = realm.location(intent.actor())->0;
    let s = structure_candidates(realm, intent, room);
    let p = participant_candidates(realm, intent, room);
    let g = contributions(realm, intent, Band::Global, None, realm.rules);
    let all = candidates(realm, intent);
    let k = choose|k: int| 0 <= k < all.len() && all[k] == c;
    if k < s.len() {
        assert(s[k] == c);
    } else if k < s.len() + p.len() {
        assert(p[k - s.len()] == c);
        assert(p.contains(c));
        let each = mob_candidates(realm, intent);
        let parts = realm.present(room).map_values(each);
        seqs::lemma_flatten_contains(parts, c);
        let i = choose|i: int| 0 <= i < parts.len() && (#[trigger] parts[i]).contains(c);
        let m = realm.present(room)[i];
        assert(realm.present(room).contains(m));
        lemma_contribution_origin(
            realm,
            intent,
            Band::Participant,
            Some(m.id),
            m.responders,
            c,
        );
    } else {
        assert(g[k - s.len() - p.len()] == c);
        assert(g.contains(c));
        lemma_contribution_origin(realm, intent, Band::Global, None, realm.rules, c);
    }
}

/// A mob found in a room is kept by the realm and is located there.
pub proof fn lemma_present_is_here(realm: RealmView, room: text::Text, m: MobView)
    requires
        realm.present(room).contains(m),
    ensures
        m.location == room,
{
    seqs::lemma_filter_contains(
        crate::sorted_map::values_in_order::<EntityId, MobView>(realm.mobs),
        |x: MobView| x.location == room,
        m,
    );
}

} // verus!
