//! Handing directed output to the sessions it is meant for.

use vstd::prelude::*;

use crate::fabric::coalesce::{self, coalesce};
use crate::fabric::operator::PresentationKind;
use crate::id::EntityId;
use crate::presentation::{NodeView, PresentationNode};
use crate::seqs;
use crate::session::{Session, SessionId, SessionView};
use crate::sorted_map::{self, Ordered, SortedMap};
use crate::text;

verus! {

/// A message and whom it is directed to.
pub type Message = (text::Text, NodeView);

/// Whether a message is directed to `who`.
pub open spec fn directed_to(who: text::Text) -> spec_fn(Message) -> bool {
    |m: Message| m.0 == who
}

/// What a message says.
pub open spec fn content() -> spec_fn(Message) -> NodeView {
    |m: Message| m.1
}

/// What is directed to `who`, in order.
pub open spec fn nodes_for(messages: Seq<Message>, who: text::Text) -> Seq<NodeView> {
    messages.filter(directed_to(who)).map_values(content())
}

/// A session after a batch of messages was handed out: what is directed to its
/// actor, collapsed, stands behind what was pending.
pub open spec fn received(messages: Seq<Message>, kinds: Seq<PresentationKind>) -> spec_fn(
    SessionView,
) -> SessionView {
    |s: SessionView|
        SessionView {
            outbox: s.outbox + coalesce::coalesced(nodes_for(messages, s.actor), kinds),
            ..s
        }
}

/// All sessions after a batch of messages was handed out.
pub open spec fn delivered(
    sessions: Map<u64, SessionView>,
    messages: Seq<Message>,
    kinds: Seq<PresentationKind>,
) -> Map<u64, SessionView> {
    sessions.map_values(received(messages, kinds))
}

/// What is directed to `who`, in order.
fn pick(messages: &Vec<(EntityId, PresentationNode)>, who: &EntityId) -> (r: Vec<PresentationNode>)
    ensures
        text::views(r@) == nodes_for(text::views(messages@), who@),
{
    let ghost all = text::views(messages@);
    let ghost p = directed_to(who@);
    let ghost f = content();
    let mut out: Vec<PresentationNode> = Vec::new();
    proof {
        seqs::lemma_filter_empty(all.take(0), p);
        assert(text::views(out@) =~= all.take(0).filter(p).map_values(f));
    }
    for i in 0..messages.len()
        invariant
            all == text::views(messages@),
            p == directed_to(who@),
            f == content(),
            text::views(out@) == all.take(i as int).filter(p).map_values(f),
    {
        let (to, node) = &messages[i];
        let ghost m = all[i as int];
        let ghost seen = all.take(i as int);
        proof {
            assert(m == (to@, node@));
            assert(all.take(i + 1) =~= seen.push(m));
            seqs::lemma_filter_push(seen, p, m);
        }
        if to.is_same(who) {
            let ghost before = text::views(out@);
            out.push(node.clone());
            proof {
                assert(text::views(out@) =~= before.push(node@));
                assert(seen.filter(p).push(m).map_values(f) =~= seen.filter(p).map_values(f).push(
                    f(m),
                ));
            }
        }
    }
    assert(all.take(messages@.len() as int) =~= all);
    out
}

/// Appends the nodes.
fn extend(out: &mut Vec<PresentationNode>, nodes: Vec<PresentationNode>)
    ensures
        text::views(final(out)@) == text::views(old(out)@) + text::views(nodes@),
{
    let ghost start = text::views(out@);
    let ghost all = text::views(nodes@);
    assert(start =~= start + all.take(0));
    for i in 0..nodes.len()
        invariant
            all == text::views(nodes@),
            text::views(out@) == start + all.take(i as int),
    {
        let ghost before = text::views(out@);
        out.push(nodes[i].clone());
        assert(text::views(out@) =~= before.push(all[i as int]));
        assert(text::views(out@) =~= start + all.take(i + 1));
    }
    assert(all.take(nodes@.len() as int) =~= all);
}

/// Hands a batch of messages out to all sessions.
pub fn deliver(
    sessions: &mut SortedMap<SessionId, Session>,
    messages: &Vec<(EntityId, PresentationNode)>,
    kinds: &Vec<PresentationKind>,
)
    ensures
        final(sessions)@ == delivered(old(sessions)@, text::views(messages@), kinds@),
{
    let n = sessions.len();
    let ghost start = sessions@;
    let ghost keys = sorted_map::in_order::<SessionId, SessionView>(start);
    let ghost step = received(text::views(messages@), kinds@);
    for i in 0..n
        invariant
            n == keys.len(),
            sorted_map::lists_keys::<SessionId, SessionView>(keys, start),
            step == received(text::views(messages@), kinds@),
            sessions@.dom() == start.dom(),
            forall|j: int|
                0 <= j < n ==> #[trigger] sessions@[keys[j]] == if j < i {
                    step(start[keys[j]])
                } else {
                    start[keys[j]]
                },
    {
        let ghost before = sessions@;
        proof {
            assert forall|k: u64| #![auto] before.contains_key(k) <==> keys.contains(k) by {
                assert(start.contains_key(k) <==> keys.contains(k));
                assert(before.dom().contains(k) == start.dom().contains(k));
            }
            assert(sorted_map::lists_keys::<SessionId, SessionView>(keys, before));
            sorted_map::lemma_listing_unique::<SessionId, SessionView>(
                keys,
                sorted_map::in_order::<SessionId, SessionView>(before),
                before,
            );
            assert(keys.contains(keys[i as int]));
            assert(start.contains_key(keys[i as int]));
        }
        let session = sessions.value_at_mut(i);
        let nodes = coalesce(pick(messages, &session.actor), kinds.as_slice());
        extend(&mut session.outbox, nodes);
        proof {
            let k = keys[i as int];
            assert(sessions@ == before.insert(k, step(start[k])));
            assert(sessions@.dom() =~= start.dom());
            assert forall|j: int| 0 <= j < n implies #[trigger] sessions@[keys[j]] == if j < i + 1 {
                step(start[keys[j]])
            } else {
                start[keys[j]]
            } by {
                if j != i && keys[j] == k {
                    assert(SessionId::before(keys[j], k) || SessionId::before(k, keys[j]));
                }
            }
        }
    }
    proof {
        let want = delivered(start, text::views(messages@), kinds@);
        assert forall|k: u64| want.contains_key(k) implies sessions@[k] == want[k] by {
            assert(keys.contains(k));
            let j = choose|j: int| 0 <= j < keys.len() && keys[j] == k;
            assert(sessions@[keys[j]] == step(start[keys[j]]));
        }
        assert(sessions@ =~= want);
    }
}

// ---------------------------------------------------------------------------
// Laws
// ---------------------------------------------------------------------------

/// What is directed to `who` in two batches is what is directed to them in the
/// first, and then in the second.
pub proof fn lemma_nodes_for_add(a: Seq<Message>, b: Seq<Message>, who: text::Text)
    ensures
        nodes_for(a + b, who) == nodes_for(a, who) + nodes_for(b, who),
    decreases b.len(),
{
    let p = directed_to(who);
    let f = content();
    if b.len() == 0 {
        assert(a + b =~= a);
        seqs::lemma_filter_empty(b, p);
        assert(nodes_for(a, who) + nodes_for(b, who) =~= nodes_for(a, who));
    } else {
        let front = b.drop_last();
        let m = b.last();
        lemma_nodes_for_add(a, front, who);
        assert(a + b =~= (a + front).push(m));
        assert(b =~= front.push(m));
        seqs::lemma_filter_push(a + front, p, m);
        seqs::lemma_filter_push(front, p, m);
        assert((a + front).filter(p).push(m).map_values(f) =~= nodes_for(a + front, who).push(f(m)));
        assert(front.filter(p).push(m).map_values(f) =~= nodes_for(front, who).push(f(m)));
        assert(nodes_for(a, who) + nodes_for(front, who).push(f(m)) =~= (nodes_for(a, who)
            + nodes_for(front, who)).push(f(m)));
    }
}

/// A single message is heard by whom it is directed to.
pub proof fn lemma_nodes_for_one(m: Message, who: text::Text)
    ensures
        nodes_for(seq![m], who) == if m.0 == who {
            seq![m.1]
        } else {
            seq![]
        },
{
    let none = Seq::<Message>::empty();
    seqs::lemma_filter_empty(none, directed_to(who));
    seqs::lemma_filter_push(none, directed_to(who), m);
    assert(seq![m] =~= none.push(m));
    assert(nodes_for(seq![m], who) =~= if m.0 == who {
        seq![m.1]
    } else {
        seq![]
    });
}

/// Of no messages nobody hears anything.
pub proof fn lemma_nothing_for_anyone(who: text::Text)
    ensures
        nodes_for(seq![], who) == Seq::<NodeView>::empty(),
{
    seqs::lemma_filter_empty(Seq::<Message>::empty(), directed_to(who));
    assert(nodes_for(seq![], who) =~= Seq::<NodeView>::empty());
}

/// A session whose actor nothing is directed to receives nothing.
pub proof fn lemma_bystanders_receive_nothing(
    messages: Seq<Message>,
    kinds: Seq<PresentationKind>,
    s: SessionView,
)
    requires
        forall|i: int| 0 <= i < messages.len() ==> (#[trigger] messages[i]).0 != s.actor,
    ensures
        received(messages, kinds)(s) == s,
{
    let none = nodes_for(messages, s.actor);
    let kept = messages.filter(directed_to(s.actor));
    if kept.len() > 0 {
        assert(kept.contains(kept[0]));
        seqs::lemma_filter_contains(messages, directed_to(s.actor), kept[0]);
        let i = choose|i: int| 0 <= i < messages.len() && messages[i] == kept[0];
        assert(messages[i].0 != s.actor);
    }
    assert(none =~= seq![]);
    seqs::lemma_filter_empty(coalesce::positions(0), coalesce::survives(none, kinds));
    assert(coalesce::coalesced(none, kinds) =~= seq![]);
    assert(s.outbox + coalesce::coalesced(none, kinds) =~= s.outbox);
}

/// Handing out neither opens nor closes a session, nor changes whose it is, and
/// what was pending stays in front.
pub proof fn lemma_delivery_only_appends(
    sessions: Map<u64, SessionView>,
    messages: Seq<Message>,
    kinds: Seq<PresentationKind>,
    id: u64,
)
    requires
        sessions.contains_key(id),
    ensures
        ({
            let after = delivered(sessions, messages, kinds);
            &&& after.dom() == sessions.dom()
            &&& after[id].actor == sessions[id].actor
            &&& sessions[id].outbox.is_prefix_of(after[id].outbox)
        }),
{
    assert(delivered(sessions, messages, kinds).dom() =~= sessions.dom());
}

} // verus!
