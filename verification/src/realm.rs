//! The fabric's operating context: the world, its creatures and its rules.

use vstd::prelude::*;

use crate::fabric::handler::{HandlerView, Rule};
use crate::fabric::operator::{Operator, OperatorView};
use crate::id::EntityId;
use crate::mob::{Mob, MobView};
use crate::seqs;
use crate::sorted_map::{clone_all, Ordered, SortedMap};
use crate::text;
use crate::world::{RoomView, World};

verus! {

/// The fabric's operating context: authored rooms (`world`) plus live `mobs`
/// and global `rules`. Co-presence is derived on demand.
#[derive(Debug)]
pub struct Realm {
    pub world: World,
    pub mobs: SortedMap<EntityId, Mob>,
    pub rules: Vec<Rule>,
    /// Message shown when a movement intent resolves to no exit at all.
    /// Data, not hardcoded, so content can reword/localize it.
    pub no_exit_message: String,
    /// Declarative stream operators attached to this realm (authored data).
    pub operators: Vec<Operator>,
    /// Message shown when a RateLimit operator drops an intent and the operator
    /// carries no explicit `deny` text. Data, not hardcoded.
    pub rate_limit_message: String,
}

pub struct RealmView {
    pub world: Map<text::Text, RoomView>,
    pub mobs: Map<text::Text, MobView>,
    pub rules: Seq<HandlerView>,
    pub no_exit_message: text::Text,
    pub operators: Seq<OperatorView>,
    pub rate_limit_message: text::Text,
}

impl View for Realm {
    type V = RealmView;

    open spec fn view(&self) -> RealmView {
        RealmView {
            world: self.world@,
            mobs: self.mobs@,
            rules: text::views(self.rules@),
            no_exit_message: self.no_exit_message@,
            operators: text::views(self.operators@),
            rate_limit_message: self.rate_limit_message@,
        }
    }
}

impl RealmView {
    /// A realm that has this world and nothing else.
    pub open spec fn of_world(world: Map<text::Text, RoomView>) -> RealmView {
        RealmView {
            world,
            mobs: Map::empty(),
            rules: seq![],
            no_exit_message: "You see no exit in that direction."@,
            operators: seq![],
            rate_limit_message: "You can't do that yet."@,
        }
    }

    /// This realm with `mob` put at its own id.
    pub open spec fn with_mob(self, mob: MobView) -> RealmView {
        RealmView { mobs: self.mobs.insert(mob.id, mob), ..self }
    }

    /// This realm without the mob at `id`.
    pub open spec fn without_mob(self, id: text::Text) -> RealmView {
        RealmView { mobs: self.mobs.remove(id), ..self }
    }

    /// This realm with `room` put at its own id.
    pub open spec fn with_room(self, room: RoomView) -> RealmView {
        RealmView { world: self.world.insert(room.id, room), ..self }
    }

    /// Where the mob at `id` is.
    pub open spec fn location(self, id: text::Text) -> Option<text::Text> {
        if self.mobs.contains_key(id) {
            Some(self.mobs[id].location)
        } else {
            None
        }
    }

    /// The mobs in `room`, by increasing id.
    pub open spec fn present(self, room: text::Text) -> Seq<MobView> {
        crate::sorted_map::values_in_order::<EntityId, MobView>(self.mobs).filter(
            |m: MobView| m.location == room,
        )
    }

    /// Whether every room and every mob is kept at its own id.
    pub open spec fn consistent(self) -> bool {
        &&& forall|id: text::Text| #[trigger]
            self.world.contains_key(id) ==> self.world[id].id == id
        &&& forall|id: text::Text| #[trigger]
            self.mobs.contains_key(id) ==> self.mobs[id].id == id
    }
}

impl Realm {
    pub fn new(world: World) -> (r: Realm)
        ensures
            r@ == RealmView::of_world(world@),
    {
        let r = Realm {
            world,
            mobs: SortedMap::new(),
            rules: Vec::new(),
            no_exit_message: "You see no exit in that direction.".to_string(),
            operators: Vec::new(),
            rate_limit_message: "You can't do that yet.".to_string(),
        };
        assert(r@.rules =~= seq![]);
        assert(r@.operators =~= seq![]);
        r
    }

    /// Puts `mob` at its own id.
    pub fn insert_mob(&mut self, mob: Mob)
        ensures
            final(self)@ == old(self)@.with_mob(mob@),
    {
        self.mobs.insert(mob.id.clone(), mob);
    }

    /// The mob at `id`.
    pub fn mob(&self, id: &EntityId) -> (r: Option<&Mob>)
        ensures
            match r {
                Some(mob) => self@.mobs.contains_key(id@) && mob@ == self@.mobs[id@],
                None => !self@.mobs.contains_key(id@),
            },
    {
        self.mobs.get(id)
    }

    /// The mob at `id`, to be changed in place.
    pub fn mob_mut(&mut self, id: &EntityId) -> (r: Option<&mut Mob>)
        ensures
            match r {
                Some(mob) => {
                    &&& old(self)@.mobs.contains_key(id@)
                    &&& (*mob)@ == old(self)@.mobs[id@]
                    &&& final(self)@ == (RealmView {
                        mobs: old(self)@.mobs.insert(id@, (*final(mob))@),
                        ..old(self)@
                    })
                },
                None => !old(self)@.mobs.contains_key(id@) && final(self)@ == old(self)@,
            },
    {
        self.mobs.get_mut(id)
    }

    /// Where the mob at `id` is.
    pub fn mob_location(&self, id: &EntityId) -> (r: Option<&EntityId>)
        ensures
            text::opt_view(r) == self@.location(id@),
    {
        match self.mobs.get(id) {
            Some(mob) => Some(&mob.location),
            None => None,
        }
    }

    /// All mobs currently in `room`, sorted by id (deterministic). Derived each
    /// call: there is no stored subscription list to go stale.
    pub fn mobs_in_room(&self, room: &EntityId) -> (r: Vec<&Mob>)
        ensures
            text::views(r@) == self@.present(room@),
    {
        let all = self.mobs.values();
        let mut here: Vec<&Mob> = Vec::new();
        let ghost p = |m: MobView| m.location == room@;
        assert(text::views(here@) =~= text::views(all@.take(0)).filter(p)) by {
            reveal(Seq::filter);
        }
        for i in 0..all.len()
            invariant
                p == (|m: MobView| m.location == room@),
                text::views(here@) == text::views(all@.take(i as int)).filter(p),
        {
            let mob = &all[i];
            proof {
                let so_far = text::views(all@.take(i as int));
                assert(text::views(all@.take(i + 1)) =~= so_far.push(mob@));
                seqs::lemma_filter_push(so_far, p, mob@);
            }
            if mob.location.is_same(room) {
                let ghost before = text::views(here@);
                here.push(mob);
                assert(text::views(here@) =~= before.push(mob@));
            }
        }
        assert(all@.take(all@.len() as int) =~= all@);
        here
    }
}

impl Default for Realm {
    fn default() -> (r: Realm)
        ensures
            r@ == RealmView::of_world(Map::empty()),
    {
        Realm::new(World::default())
    }
}

impl Clone for Realm {
    fn clone(&self) -> (r: Realm)
        ensures
            r@ == self@,
    {
        Realm {
            world: self.world.clone(),
            mobs: self.mobs.clone(),
            rules: clone_all(&self.rules),
            no_exit_message: self.no_exit_message.clone(),
            operators: clone_all(&self.operators),
            rate_limit_message: self.rate_limit_message.clone(),
        }
    }
}

// ---------------------------------------------------------------------------
// Laws
// ---------------------------------------------------------------------------

/// A realm of a world has its rooms, nobody in it, no rule and no operator, and says
/// the usual things.
pub proof fn lemma_a_bare_realm(world: Map<text::Text, RoomView>)
    ensures
        ({
            let r = RealmView::of_world(world);
            &&& r.world == world
            &&& r.mobs.dom() == Set::<text::Text>::empty()
            &&& r.rules.len() == 0
            &&& r.operators.len() == 0
            &&& r.no_exit_message == "You see no exit in that direction."@
            &&& r.rate_limit_message == "You can't do that yet."@
        }),
{
}

/// Mobs and rooms are put at their own ids and taken from there, and nothing else of
/// the realm changes.
pub proof fn lemma_putting_and_taking(realm: RealmView, mob: MobView, room: RoomView, id: text::Text)
    ensures
        realm.with_mob(mob) == (RealmView { mobs: realm.mobs.insert(mob.id, mob), ..realm }),
        realm.with_room(room) == (RealmView { world: realm.world.insert(room.id, room), ..realm }),
        realm.without_mob(id) == (RealmView { mobs: realm.mobs.remove(id), ..realm }),
        realm.with_mob(mob).location(mob.id) == Some(mob.location),
        realm.without_mob(id).location(id) is None,
        id != mob.id ==> realm.with_mob(mob).location(id) == realm.location(id),
        realm.mobs.contains_key(id) ==> realm.location(id) == Some(realm.mobs[id].location),
{
}

} // verus!
