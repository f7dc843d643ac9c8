//! Connected sessions.

use vstd::prelude::*;

use crate::id::EntityId;
use crate::presentation::{NodeView, PresentationNode};
use crate::sorted_map::{clone_all, Ordered};
use crate::text;

verus! {

/// Identifies a connected session (one per client connection).
#[derive(Debug, Clone, Copy, PartialEq, Eq, PartialOrd, Ord, Hash, Structural)]
pub struct SessionId(pub u64);

impl View for SessionId {
    type V = u64;

    open spec fn view(&self) -> u64 {
        self.0
    }
}

impl Ordered for SessionId {
    open spec fn before(a: u64, b: u64) -> bool {
        a < b
    }

    proof fn before_irreflexive(a: u64) {
    }

    proof fn before_transitive(a: u64, b: u64, c: u64) {
    }

    proof fn before_total(a: u64, b: u64) {
    }

    fn is_before(&self, other: &SessionId) -> (r: bool) {
        self.0 < other.0
    }

    fn is_same(&self, other: &SessionId) -> (r: bool) {
        self.0 == other.0
    }
}

/// A connected session: the actor it drives, its pending outbound view, and
/// whether the actor outlives it.
#[derive(Debug, PartialEq)]
pub struct Session {
    pub actor: EntityId,
    pub outbox: Vec<PresentationNode>,
    /// Named actors persist; anonymous players leave the world with their session.
    pub persistent: bool,
}

#[verifier::ext_equal]
pub struct SessionView {
    pub actor: text::Text,
    pub outbox: Seq<NodeView>,
    pub persistent: bool,
}

impl View for Session {
    type V = SessionView;

    open spec fn view(&self) -> SessionView {
        SessionView {
            actor: self.actor@,
            outbox: text::views(self.outbox@),
            persistent: self.persistent,
        }
    }
}

impl Clone for Session {
    fn clone(&self) -> (r: Session)
        ensures
            r@ == self@,
    {
        Session {
            actor: self.actor.clone(),
            outbox: clone_all(&self.outbox),
            persistent: self.persistent,
        }
    }
}

impl SessionView {
    /// A session that has nothing to deliver yet.
    pub open spec fn fresh(actor: text::Text) -> SessionView {
        SessionView { actor, outbox: seq![], persistent: false }
    }

    /// Such a session whose actor outlives it.
    pub open spec fn lasting(actor: text::Text) -> SessionView {
        SessionView { persistent: true, ..SessionView::fresh(actor) }
    }
}

impl Session {
    pub fn new(actor: EntityId) -> (r: Session)
        ensures
            r@ == SessionView::fresh(actor@),
    {
        let r = Session { actor, outbox: Vec::new(), persistent: false };
        assert(r@.outbox =~= seq![]);
        r
    }

    /// A session whose actor outlives it.
    pub fn lasting(actor: EntityId) -> (r: Session)
        ensures
            r@ == SessionView::lasting(actor@),
    {
        Session { persistent: true, ..Session::new(actor) }
    }
}

} // verus!
