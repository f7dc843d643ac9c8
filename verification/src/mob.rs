//! Live, located creatures.

use vstd::prelude::*;

use crate::fabric::handler::{HandlerView, Responder};
use crate::id::EntityId;
use crate::sorted_map::{clone_all, Ordered};
use crate::sorted_set::SortedSet;
use crate::text;

verus! {

/// A boolean state marker on a mob. Guards (predicates) test these.
#[derive(Debug, Clone, Copy, PartialEq, Eq, PartialOrd, Ord, Hash, Structural)]
pub enum Flag {
    Alive,
    Conscious,
}

impl View for Flag {
    type V = Flag;

    open spec fn view(&self) -> Flag {
        *self
    }
}

impl Ordered for Flag {
    open spec fn before(a: Flag, b: Flag) -> bool {
        a == Flag::Alive && b == Flag::Conscious
    }

    proof fn before_irreflexive(a: Flag) {
    }

    proof fn before_transitive(a: Flag, b: Flag, c: Flag) {
    }

    proof fn before_total(a: Flag, b: Flag) {
    }

    fn is_before(&self, other: &Flag) -> (r: bool) {
        *self == Flag::Alive && *other == Flag::Conscious
    }

    fn is_same(&self, other: &Flag) -> (r: bool) {
        *self == *other
    }
}

/// A live, located creature (both player-characters and NPCs).
#[derive(Debug, PartialEq)]
pub struct Mob {
    pub id: EntityId,
    pub name: String,
    /// The id of the room this mob currently occupies.
    pub location: EntityId,
    pub flags: SortedSet<Flag>,
    /// Handlers this mob brings to what happens around it.
    pub responders: Vec<Responder>,
}

pub struct MobView {
    pub id: text::Text,
    pub name: text::Text,
    pub location: text::Text,
    pub flags: Set<Flag>,
    pub responders: Seq<HandlerView>,
}

impl View for Mob {
    type V = MobView;

    open spec fn view(&self) -> MobView {
        MobView {
            id: self.id@,
            name: self.name@,
            location: self.location@,
            flags: self.flags@,
            responders: text::views(self.responders@),
        }
    }
}

impl Clone for Mob {
    fn clone(&self) -> (r: Mob)
        ensures
            r@ == self@,
    {
        Mob {
            id: self.id.clone(),
            name: self.name.clone(),
            location: self.location.clone(),
            flags: self.flags.clone(),
            responders: clone_all(&self.responders),
        }
    }
}

impl Mob {
    pub fn has_flag(&self, flag: Flag) -> (r: bool)
        ensures
            r == self@.flags.contains(flag),
    {
        self.flags.contains(&flag)
    }
}

} // verus!
