//! Handlers: what a creature or the world itself has to say about an intent.

use vstd::prelude::*;

use crate::fabric::predicate::{Party, Predicate};
use crate::fabric::trigger::Trigger;
use crate::id::EntityId;
use crate::sorted_map::clone_all;
use crate::text;

verus! {

/// An effect a handler runs when it is the salient responder.
#[derive(Debug, PartialEq)]
pub enum Effect {
    Narrate(Party, String),
}

pub enum EffectView {
    Narrate(Party, text::Text),
}

impl View for Effect {
    type V = EffectView;

    open spec fn view(&self) -> EffectView {
        match self {
            Effect::Narrate(party, s) => EffectView::Narrate(*party, s@),
        }
    }
}

impl Clone for Effect {
    fn clone(&self) -> (r: Effect)
        ensures
            r@ == self@,
    {
        match self {
            Effect::Narrate(party, s) => Effect::Narrate(*party, s.clone()),
        }
    }
}

/// A handler's vote/result. `Traverse` allows movement to a room; `Block` denies;
/// `Allow` is a generic non-movement allow.
#[derive(Debug, PartialEq)]
pub enum Outcome {
    Traverse(EntityId),
    Block,
    Allow,
}

pub enum OutcomeView {
    Traverse(text::Text),
    Block,
    Allow,
}

impl View for Outcome {
    type V = OutcomeView;

    open spec fn view(&self) -> OutcomeView {
        match self {
            Outcome::Traverse(to) => OutcomeView::Traverse(to@),
            Outcome::Block => OutcomeView::Block,
            Outcome::Allow => OutcomeView::Allow,
        }
    }
}

impl Clone for Outcome {
    fn clone(&self) -> (r: Outcome)
        ensures
            r@ == self@,
    {
        match self {
            Outcome::Traverse(to) => Outcome::Traverse(to.clone()),
            Outcome::Block => Outcome::Block,
            Outcome::Allow => Outcome::Allow,
        }
    }
}

/// Salience band. Lower rank = more salient (narrates first).
#[derive(Debug, Clone, Copy, PartialEq, Eq, Structural)]
pub enum Band {
    Participant,
    Structure,
    Global,
}

/// The rank of a band: participants first, then structure, then the world.
pub open spec fn band_rank(band: Band) -> u8 {
    match band {
        Band::Participant => 0,
        Band::Structure => 1,
        Band::Global => 2,
    }
}

impl Band {
    pub fn rank(&self) -> (r: u8)
        ensures
            r == band_rank(*self),
    {
        match self {
            Band::Participant => 0,
            Band::Structure => 1,
            Band::Global => 2,
        }
    }
}

/// An entity-attached handler (lives on a `Mob`, Participant band).
#[derive(Debug, PartialEq)]
pub struct Responder {
    pub on: Trigger,
    pub require: Vec<Predicate>,
    pub effects: Vec<Effect>,
    pub outcome: Outcome,
    pub priority: i32,
}

/// A global, unattached handler (Global band).
#[derive(Debug, PartialEq)]
pub struct Rule {
    pub on: Trigger,
    pub require: Vec<Predicate>,
    pub effects: Vec<Effect>,
    pub outcome: Outcome,
    pub priority: i32,
}

/// What a handler of either kind holds.
pub struct HandlerView {
    pub on: Trigger,
    pub require: Seq<Predicate>,
    pub effects: Seq<EffectView>,
    pub outcome: OutcomeView,
    pub priority: i32,
}

impl View for Responder {
    type V = HandlerView;

    open spec fn view(&self) -> HandlerView {
        HandlerView {
            on: self.on,
            require: self.require@,
            effects: text::views(self.effects@),
            outcome: self.outcome@,
            priority: self.priority,
        }
    }
}

impl Clone for Responder {
    fn clone(&self) -> (r: Responder)
        ensures
            r@ == self@,
    {
        let require = self.require.clone();
        assert(require@ =~= self.require@);
        Responder {
            on: self.on,
            require,
            effects: clone_all(&self.effects),
            outcome: self.outcome.clone(),
            priority: self.priority,
        }
    }
}

impl View for Rule {
    type V = HandlerView;

    open spec fn view(&self) -> HandlerView {
        HandlerView {
            on: self.on,
            require: self.require@,
            effects: text::views(self.effects@),
            outcome: self.outcome@,
            priority: self.priority,
        }
    }
}

impl Clone for Rule {
    fn clone(&self) -> (r: Rule)
        ensures
            r@ == self@,
    {
        let require = self.require.clone();
        assert(require@ =~= self.require@);
        Rule {
            on: self.on,
            require,
            effects: clone_all(&self.effects),
            outcome: self.outcome.clone(),
            priority: self.priority,
        }
    }
}

} // verus!
