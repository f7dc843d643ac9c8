//! The sessions, and the numbers they are known by.

use vstd::prelude::*;

use crate::engine::delivery::{self, deliver};
use crate::fabric::operator::PresentationKind;
use crate::id::EntityId;
use crate::presentation::PresentationNode;
use crate::session::{Session, SessionId, SessionView};
use crate::sorted_map::SortedMap;
use crate::text;

verus! {

/// The sessions by their numbers. Every number in use has been given out, and
/// none is given out twice.
pub struct Roster {
    sessions: SortedMap<SessionId, Session>,
    next: u64,
}

pub struct RosterView {
    pub sessions: Map<u64, SessionView>,
    /// The next number to give out.
    pub next: u64,
}

impl View for Roster {
    type V = RosterView;

    closed spec fn view(&self) -> RosterView {
        RosterView { sessions: self.sessions@, next: self.next }
    }
}

impl RosterView {
    /// Whether every number in use has been given out.
    pub open spec fn orderly(self) -> bool {
        forall|id: u64| #[trigger] self.sessions.contains_key(id) ==> id < self.next
    }
}

impl Roster {
    #[verifier::type_invariant]
    spec fn well_formed(self) -> bool {
        forall|id: u64| #[trigger] self.sessions@.contains_key(id) ==> id < self.next
    }

    pub fn new() -> (r: Roster)
        ensures
            r@ == (RosterView { sessions: Map::empty(), next: 0 }),
    {
        Roster { sessions: SortedMap::new(), next: 0 }
    }

    /// The next number to give out.
    pub fn next(&self) -> (r: u64)
        ensures
            r == self@.next,
            self@.orderly(),
    {
        proof {
            use_type_invariant(self);
        }
        self.next
    }

    /// The sessions.
    pub fn sessions(&self) -> (r: &SortedMap<SessionId, Session>)
        ensures
            r@ == self@.sessions,
            self@.orderly(),
    {
        proof {
            use_type_invariant(self);
        }
        &self.sessions
    }

    /// Opens a session, under a number that no session has.
    pub fn open(&mut self, session: Session) -> (r: SessionId)
        requires
            old(self)@.next < u64::MAX,
        ensures
            r@ == old(self)@.next,
            !old(self)@.sessions.contains_key(r@),
            final(self)@ == (RosterView {
                sessions: old(self)@.sessions.insert(r@, session@),
                next: (r@ + 1) as u64,
            }),
            old(self)@.orderly(),
            final(self)@.orderly(),
    {
        proof {
            use_type_invariant(&*self);
        }
        let id = SessionId(self.next);
        let mut sessions: SortedMap<SessionId, Session> = SortedMap::new();
        std::mem::swap(&mut sessions, &mut self.sessions);
        let ghost before = sessions@;
        sessions.insert(id, session);
        self.next = self.next + 1;
        assert forall|k: u64| #[trigger] sessions@.contains_key(k) implies k < self.next by {
            if k != id@ {
                assert(before.contains_key(k));
            }
        }
        self.sessions = sessions;
        id
    }

    /// Takes a session out.
    pub fn close(&mut self, id: SessionId) -> (r: Option<Session>)
        ensures
            final(self)@ == (RosterView {
                sessions: old(self)@.sessions.remove(id@),
                ..old(self)@
            }),
            match r {
                Some(s) => old(self)@.sessions.contains_key(id@) && s@ == old(self)@.sessions[id@],
                None => !old(self)@.sessions.contains_key(id@),
            },
    {
        proof {
            use_type_invariant(&*self);
        }
        let mut sessions: SortedMap<SessionId, Session> = SortedMap::new();
        std::mem::swap(&mut sessions, &mut self.sessions);
        let r = sessions.remove(&id);
        self.sessions = sessions;
        r
    }

    /// Takes what is pending for a session.
    pub fn take_pending(&mut self, id: SessionId) -> (r: Vec<PresentationNode>)
        ensures
            ({
                let was = old(self)@.sessions;
                if was.contains_key(id@) {
                    &&& text::views(r@) == was[id@].outbox
                    &&& final(self)@ == (RosterView {
                        sessions: was.insert(id@, SessionView { outbox: seq![], ..was[id@] }),
                        ..old(self)@
                    })
                } else {
                    text::views(r@) == Seq::<crate::presentation::NodeView>::empty() && final(self)@
                        == old(self)@
                }
            }),
    {
        proof {
            use_type_invariant(&*self);
        }
        let mut sessions: SortedMap<SessionId, Session> = SortedMap::new();
        std::mem::swap(&mut sessions, &mut self.sessions);
        let ghost before = sessions@;
        let mut out: Vec<PresentationNode> = Vec::new();
        match sessions.get_mut(&id) {
            Some(session) => {
                std::mem::swap(&mut out, &mut session.outbox);
                assert(session@.outbox =~= seq![]);
            },
            None => {
                assert(text::views(out@) =~= seq![]);
            },
        }
        assert forall|k: u64| #[trigger] sessions@.contains_key(k) implies k < self.next by {
            assert(before.contains_key(k));
        }
        self.sessions = sessions;
        out
    }

    /// Hands a batch of messages out to all sessions.
    pub fn hand_out(
        &mut self,
        messages: &Vec<(EntityId, PresentationNode)>,
        kinds: &Vec<PresentationKind>,
    )
        ensures
            final(self)@ == (RosterView {
                sessions: delivery::delivered(
                    old(self)@.sessions,
                    text::views(messages@),
                    kinds@,
                ),
                ..old(self)@
            }),
    {
        proof {
            use_type_invariant(&*self);
        }
        let mut sessions: SortedMap<SessionId, Session> = SortedMap::new();
        std::mem::swap(&mut sessions, &mut self.sessions);
        let ghost before = sessions@;
        deliver(&mut sessions, messages, kinds);
        assert forall|k: u64| #[trigger] sessions@.contains_key(k) implies k < self.next by {
            assert(before.contains_key(k));
        }
        self.sessions = sessions;
    }
}

} // verus!
