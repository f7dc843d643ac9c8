//! What is proposed, and what came of it.

use vstd::prelude::*;

use crate::direction::Direction;
use crate::id::EntityId;
use crate::text;

verus! {

/// A proposed, vetoable action entering the fabric.
#[derive(Debug, PartialEq)]
pub enum Intent {
    Move { actor: EntityId, direction: Direction },
    Look { actor: EntityId },
}

pub enum IntentView {
    Move { actor: text::Text, direction: Direction },
    Look { actor: text::Text },
}

impl IntentView {
    pub open spec fn actor(self) -> text::Text {
        match self {
            IntentView::Move { actor, .. } => actor,
            IntentView::Look { actor } => actor,
        }
    }
}

impl View for Intent {
    type V = IntentView;

    open spec fn view(&self) -> IntentView {
        match self {
            Intent::Move { actor, direction } => IntentView::Move {
                actor: actor@,
                direction: *direction,
            },
            Intent::Look { actor } => IntentView::Look { actor: actor@ },
        }
    }
}

impl Clone for Intent {
    fn clone(&self) -> (r: Intent)
        ensures
            r@ == self@,
    {
        match self {
            Intent::Move { actor, direction } => Intent::Move {
                actor: actor.clone(),
                direction: *direction,
            },
            Intent::Look { actor } => Intent::Look { actor: actor.clone() },
        }
    }
}

impl Intent {
    /// The entity performing the intent.
    pub fn actor(&self) -> (r: &EntityId)
        ensures
            r@ == self@.actor(),
    {
        match self {
            Intent::Move { actor, .. } => actor,
            Intent::Look { actor } => actor,
        }
    }
}

/// A committed, factual, observable occurrence produced by the Commit phase.
#[derive(Debug, PartialEq)]
pub enum Event {
    Moved { actor: EntityId, from: EntityId, to: EntityId },
    Looked { actor: EntityId, room: EntityId },
}

pub enum EventView {
    Moved { actor: text::Text, from: text::Text, to: text::Text },
    Looked { actor: text::Text, room: text::Text },
}

impl View for Event {
    type V = EventView;

    open spec fn view(&self) -> EventView {
        match self {
            Event::Moved { actor, from, to } => EventView::Moved {
                actor: actor@,
                from: from@,
                to: to@,
            },
            Event::Looked { actor, room } => EventView::Looked { actor: actor@, room: room@ },
        }
    }
}

impl Clone for Event {
    fn clone(&self) -> (r: Event)
        ensures
            r@ == self@,
    {
        match self {
            Event::Moved { actor, from, to } => Event::Moved {
                actor: actor.clone(),
                from: from.clone(),
                to: to.clone(),
            },
            Event::Looked { actor, room } => Event::Looked {
                actor: actor.clone(),
                room: room.clone(),
            },
        }
    }
}

} // verus!
