//! What a handler listens for.

use vstd::prelude::*;

use crate::direction::Direction;
use crate::fabric::intent::{Intent, IntentView};
use crate::text;

verus! {

/// A pattern a handler listens for. `AnyMove` matches movement in any direction.
#[derive(Debug, Clone, Copy, PartialEq, Structural)]
pub enum Trigger {
    Move(Direction),
    AnyMove,
    Look,
}

/// Whether a handler with this trigger hears `intent`.
pub open spec fn hears(trigger: Trigger, intent: IntentView) -> bool {
    match intent {
        IntentView::Move { direction, .. } => trigger == Trigger::Move(direction) || trigger
            == Trigger::AnyMove,
        IntentView::Look { .. } => trigger == Trigger::Look,
    }
}

/// What each trigger hears: one on a direction the moves in that direction and
/// nothing else, one on any move every move and nothing else, one on looking
/// every look and nothing else. Whose intent it is makes no difference.
pub proof fn lemma_what_triggers_hear(actor: text::Text, moved: Direction, listened: Direction)
    ensures
        ({
            let going = IntentView::Move { actor, direction: moved };
            let looking = IntentView::Look { actor };
            &&& hears(Trigger::Move(listened), going) <==> listened == moved
            &&& hears(Trigger::AnyMove, going)
            &&& !hears(Trigger::Look, going)
            &&& hears(Trigger::Look, looking)
            &&& !hears(Trigger::Move(listened), looking)
            &&& !hears(Trigger::AnyMove, looking)
        }),
{
}

impl View for Trigger {
    type V = Trigger;

    open spec fn view(&self) -> Trigger {
        *self
    }
}

impl Trigger {
    /// Whether a handler with this trigger hears `intent`.
    pub fn matches(&self, intent: &Intent) -> (r: bool)
        ensures
            r == hears(*self, intent@),
    {
        match (self, intent) {
            (Trigger::Move(d), Intent::Move { direction, .. }) => *d == *direction,
            (Trigger::AnyMove, Intent::Move { .. }) => true,
            (Trigger::Look, Intent::Look { .. }) => true,
            _ => false,
        }
    }
}

} // verus!
