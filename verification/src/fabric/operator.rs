//! Stream operators: rate limits on what comes in, coalescing of what goes out.

use vstd::prelude::*;

use crate::fabric::intent::{Intent, IntentView};
use crate::presentation::{NodeView, PresentationNode};
use crate::text;

verus! {

/// Which intent class an operator matches. Coarser than `Trigger`: operators
/// gate by class, not by exact direction.
#[derive(Debug, Clone, Copy, PartialEq, Eq, Structural)]
pub enum IntentClass {
    Move,
    Look,
}

/// The class of an intent.
pub open spec fn class_of(intent: IntentView) -> IntentClass {
    match intent {
        IntentView::Move { .. } => IntentClass::Move,
        IntentView::Look { .. } => IntentClass::Look,
    }
}

impl IntentClass {
    pub fn of(intent: &Intent) -> (r: IntentClass)
        ensures
            r == class_of(intent@),
    {
        match intent {
            Intent::Move { .. } => IntentClass::Move,
            Intent::Look { .. } => IntentClass::Look,
        }
    }
}

/// The kind of a presentation node, for kind-based coalescing.
#[derive(Debug, Clone, Copy, PartialEq, Eq, PartialOrd, Ord, Structural)]
pub enum PresentationKind {
    RoomName,
    RoomDescription,
    Exits,
    Occupants,
    Line,
    Denied,
    Prompt,
}

/// The kind of a presentation node.
pub open spec fn kind_of(node: NodeView) -> PresentationKind {
    match node {
        NodeView::RoomName(_) => PresentationKind::RoomName,
        NodeView::RoomDescription(_) => PresentationKind::RoomDescription,
        NodeView::Exits(_) => PresentationKind::Exits,
        NodeView::Occupants(_) => PresentationKind::Occupants,
        NodeView::Line(_) => PresentationKind::Line,
        NodeView::Denied(_) => PresentationKind::Denied,
        NodeView::Prompt => PresentationKind::Prompt,
    }
}

impl PresentationKind {
    pub fn of(node: &PresentationNode) -> (r: PresentationKind)
        ensures
            r == kind_of(node@),
    {
        match node {
            PresentationNode::RoomName(_) => PresentationKind::RoomName,
            PresentationNode::RoomDescription(_) => PresentationKind::RoomDescription,
            PresentationNode::Exits(_) => PresentationKind::Exits,
            PresentationNode::Occupants(_) => PresentationKind::Occupants,
            PresentationNode::Line(_) => PresentationKind::Line,
            PresentationNode::Denied(_) => PresentationKind::Denied,
            PresentationNode::Prompt => PresentationKind::Prompt,
        }
    }
}

/// The scope key an operator's state machine is bucketed by.
#[derive(Debug, Clone, Copy, PartialEq, Eq, Structural)]
pub enum Scope {
    Global,
    PerActor,
}

/// A declarative stream operator, attached as data on the `Realm`. Each is a
/// deterministic, tick-quantized state machine (state held at runtime by the
/// host).
#[allow(inconsistent_fields)]
#[derive(Debug, PartialEq)]
pub enum Operator {
    /// Admit at most one matching intent per `per_ticks` window per scope key.
    RateLimit { on: IntentClass, per_ticks: u64, scope: Scope, deny: Option<String> },
    /// Collapse redundant directed-presentation nodes of the listed kinds within
    /// a single tick's batch (`within_ticks` is reserved).
    Coalesce { on: Vec<PresentationKind>, within_ticks: u64, scope: Scope },
}

#[allow(inconsistent_fields)]
pub enum OperatorView {
    RateLimit { on: IntentClass, per_ticks: u64, scope: Scope, deny: Option<text::Text> },
    Coalesce { on: Seq<PresentationKind>, within_ticks: u64, scope: Scope },
}

impl View for Operator {
    type V = OperatorView;

    open spec fn view(&self) -> OperatorView {
        match self {
            Operator::RateLimit { on, per_ticks, scope, deny } => OperatorView::RateLimit {
                on: *on,
                per_ticks: *per_ticks,
                scope: *scope,
                deny: text::opt_view(*deny),
            },
            Operator::Coalesce { on, within_ticks, scope } => OperatorView::Coalesce {
                on: on@,
                within_ticks: *within_ticks,
                scope: *scope,
            },
        }
    }
}

impl Clone for Operator {
    fn clone(&self) -> (r: Operator)
        ensures
            r@ == self@,
    {
        match self {
            Operator::RateLimit { on, per_ticks, scope, deny } => Operator::RateLimit {
                on: *on,
                per_ticks: *per_ticks,
                scope: *scope,
                deny: deny.clone(),
            },
            Operator::Coalesce { on, within_ticks, scope } => {
                let kinds = on.clone();
                assert(kinds@ =~= on@);
                Operator::Coalesce { on: kinds, within_ticks: *within_ticks, scope: *scope }
            },
        }
    }
}

} // verus!
