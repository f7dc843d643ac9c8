//! Guards: conditions on the participants of an intent.

use vstd::prelude::*;

use crate::id::EntityId;
use crate::mob::Flag;
use crate::realm::{Realm, RealmView};
use crate::text;

verus! {

/// Which participant a predicate/effect refers to. `SelfMob` is the mob that
/// owns the responder (none for global rules).
#[derive(Debug, Clone, Copy, PartialEq, Structural)]
pub enum Party {
    Actor,
    SelfMob,
}

/// A guard, drawn from the fixed predicate vocabulary.
#[derive(Debug, Clone, Copy, PartialEq, Structural)]
pub enum Predicate {
    Alive(Party),
    Conscious(Party),
}

/// The entity a party stands for, if there is one.
pub open spec fn party_id(
    party: Party,
    self_id: Option<text::Text>,
    actor: text::Text,
) -> Option<text::Text> {
    match party {
        Party::Actor => Some(actor),
        Party::SelfMob => self_id,
    }
}

/// Whether `who` stands for a mob of the realm that carries `flag`.
pub open spec fn carries(realm: RealmView, who: Option<text::Text>, flag: Flag) -> bool {
    match who {
        Some(id) => realm.mobs.contains_key(id) && realm.mobs[id].flags.contains(flag),
        None => false,
    }
}

/// Whether a predicate holds of current state. Unresolvable parties fail it.
pub open spec fn holds(
    realm: RealmView,
    pred: Predicate,
    self_id: Option<text::Text>,
    actor: text::Text,
) -> bool {
    match pred {
        Predicate::Alive(p) => carries(realm, party_id(p, self_id, actor), Flag::Alive),
        Predicate::Conscious(p) => carries(realm, party_id(p, self_id, actor), Flag::Conscious),
    }
}

/// What is asked of whom: a condition on the actor is met by the actor's own
/// flags, one on the owner by the owner's, whatever anybody else's are. Nobody
/// who is not in the realm meets a condition, and a handler that has no owner
/// meets none on it.
pub proof fn lemma_whose_flags_count(
    realm: RealmView,
    owner: text::Text,
    actor: text::Text,
    self_id: Option<text::Text>,
)
    ensures
        holds(realm, Predicate::Alive(Party::Actor), self_id, actor) <==> realm.mobs.contains_key(
            actor,
        ) && realm.mobs[actor].flags.contains(Flag::Alive),
        holds(realm, Predicate::Conscious(Party::Actor), self_id, actor)
            <==> realm.mobs.contains_key(actor) && realm.mobs[actor].flags.contains(
            Flag::Conscious,
        ),
        holds(realm, Predicate::Alive(Party::SelfMob), Some(owner), actor)
            <==> realm.mobs.contains_key(owner) && realm.mobs[owner].flags.contains(Flag::Alive),
        holds(realm, Predicate::Conscious(Party::SelfMob), Some(owner), actor)
            <==> realm.mobs.contains_key(owner) && realm.mobs[owner].flags.contains(
            Flag::Conscious,
        ),
        !holds(realm, Predicate::Alive(Party::SelfMob), None, actor),
        !holds(realm, Predicate::Conscious(Party::SelfMob), None, actor),
{
}

fn resolve<'a>(party: Party, self_id: Option<&'a EntityId>, actor: &'a EntityId) -> (r: Option<
    &'a EntityId,
>)
    ensures
        text::opt_view(r) == party_id(party, text::opt_view(self_id), actor@),
{
    match party {
        Party::Actor => Some(actor),
        Party::SelfMob => self_id,
    }
}

fn mob_has(realm: &Realm, who: Option<&EntityId>, flag: Flag) -> (r: bool)
    ensures
        r == carries(realm@, text::opt_view(who), flag),
{
    match who {
        Some(id) => match realm.mob(id) {
            Some(mob) => mob.has_flag(flag),
            None => false,
        },
        None => false,
    }
}

/// Evaluate a predicate against current state. Unresolvable parties fail it.
pub fn eval(
    realm: &Realm,
    pred: &Predicate,
    self_id: Option<&EntityId>,
    actor: &EntityId,
) -> (r: bool)
    ensures
        r == holds(realm@, *pred, text::opt_view(self_id), actor@),
{
    match pred {
        Predicate::Alive(p) => mob_has(realm, resolve(*p, self_id, actor), Flag::Alive),
        Predicate::Conscious(p) => mob_has(realm, resolve(*p, self_id, actor), Flag::Conscious),
    }
}

} // verus!
