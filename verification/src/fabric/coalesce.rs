//! Collapsing redundant output within one batch.

use vstd::prelude::*;

use crate::fabric::operator::{self, PresentationKind};
use crate::presentation::{NodeView, PresentationNode};
use crate::seqs;
use crate::text;

verus! {

/// Whether the node at position `i` is kept: its kind is not one of those that
/// collapse, or no later node is of its kind.
pub open spec fn survives(
    nodes: Seq<NodeView>,
    kinds: Seq<PresentationKind>,
) -> spec_fn(int) -> bool {
    |i: int|
        kinds.contains(operator::kind_of(nodes[i])) ==> forall|j: int|
            i < j < nodes.len() ==> operator::kind_of(#[trigger] nodes[j]) != operator::kind_of(
                nodes[i],
            )
}

/// The positions below `n`.
pub open spec fn positions(n: nat) -> Seq<int> {
    Seq::new(n, |i: int| i)
}

/// The positions of the nodes that are kept, in order.
pub open spec fn kept(nodes: Seq<NodeView>, kinds: Seq<PresentationKind>) -> Seq<int> {
    positions(nodes.len()).filter(survives(nodes, kinds))
}

/// The nodes of which only the last of each listed kind is left.
pub open spec fn coalesced(nodes: Seq<NodeView>, kinds: Seq<PresentationKind>) -> Seq<NodeView> {
    kept(nodes, kinds).map_values(|i: int| nodes[i])
}

/// Whether `kind` is one of `kinds`.
fn lists(kinds: &[PresentationKind], kind: PresentationKind) -> (r: bool)
    ensures
        r == kinds@.contains(kind),
{
    for i in 0..kinds.len()
        invariant
            forall|j: int| 0 <= j < i ==> kinds@[j] != kind,
    {
        if kinds[i] == kind {
            assert(kinds@[i as int] == kind);
            return true;
        }
    }
    false
}

/// Whether the node at position `i` is kept.
fn is_kept(nodes: &Vec<PresentationNode>, kinds: &[PresentationKind], i: usize) -> (r: bool)
    requires
        i < nodes@.len(),
    ensures
        r == survives(text::views(nodes@), kinds@)(i as int),
{
    let ghost all = text::views(nodes@);
    let kind = PresentationKind::of(&nodes[i]);
    if !lists(kinds, kind) {
        return true;
    }
    let n = nodes.len();
    for j in i + 1..n
        invariant
            n == nodes@.len(),
            all == text::views(nodes@),
            i < all.len(),
            kind == operator::kind_of(all[i as int]),
            kinds@.contains(kind),
            forall|k: int| i < k < j ==> operator::kind_of(#[trigger] all[k]) != kind,
    {
        if PresentationKind::of(&nodes[j]) == kind {
            assert(operator::kind_of(all[j as int]) == kind);
            return false;
        }
    }
    true
}

/// Collapse redundant nodes: of each of the listed kinds only the last node is
/// kept, where it stands. All other nodes stay, in order.
pub fn coalesce(nodes: Vec<PresentationNode>, kinds: &[PresentationKind]) -> (r: Vec<
    PresentationNode,
>)
    ensures
        text::views(r@) == coalesced(text::views(nodes@), kinds@),
{
    let ghost all = text::views(nodes@);
    let ghost p = survives(all, kinds@);
    let ghost at = |i: int| all[i];
    let mut out: Vec<PresentationNode> = Vec::new();
    proof {
        seqs::lemma_filter_empty(positions(0), p);
        assert(text::views(out@) =~= positions(0).filter(p).map_values(at));
    }
    for i in 0..nodes.len()
        invariant
            all == text::views(nodes@),
            p == survives(all, kinds@),
            at == (|i: int| all[i]),
            text::views(out@) == positions(i as nat).filter(p).map_values(at),
    {
        proof {
            assert(positions((i + 1) as nat) =~= positions(i as nat).push(i as int));
            seqs::lemma_filter_push(positions(i as nat), p, i as int);
        }
        if is_kept(&nodes, kinds, i) {
            let ghost before = text::views(out@);
            out.push(nodes[i].clone());
            proof {
                assert(text::views(out@) =~= before.push(all[i as int]));
                let seen = positions(i as nat).filter(p);
                assert(seen.push(i as int).map_values(at) =~= seen.map_values(at).push(
                    at(i as int),
                ));
            }
        }
    }
    out
}

// ---------------------------------------------------------------------------
// Laws
// ---------------------------------------------------------------------------

/// The kept positions come in increasing order, and each is kept.
pub proof fn lemma_kept(n: nat, p: spec_fn(int) -> bool)
    ensures
        ({
            let k = positions(n).filter(p);
            &&& forall|a: int, b: int|
                #![trigger k[a], k[b]]
                0 <= a < b < k.len() ==> k[a] < k[b]
            &&& forall|a: int| 0 <= a < k.len() ==> 0 <= #[trigger] k[a] < n && p(k[a])
        }),
    decreases n,
{
    if n == 0 {
        seqs::lemma_filter_empty(positions(0), p);
    } else {
        let m = (n - 1) as nat;
        lemma_kept(m, p);
        assert(positions(n) =~= positions(m).push(m as int));
        seqs::lemma_filter_push(positions(m), p, m as int);
    }
}

/// Of a listed kind at most one node is left.
pub proof fn lemma_one_of_each_listed_kind(
    nodes: Seq<NodeView>,
    kinds: Seq<PresentationKind>,
    a: int,
    b: int,
)
    requires
        0 <= a < coalesced(nodes, kinds).len(),
        0 <= b < coalesced(nodes, kinds).len(),
        kinds.contains(operator::kind_of(coalesced(nodes, kinds)[a])),
        operator::kind_of(coalesced(nodes, kinds)[a]) == operator::kind_of(
            coalesced(nodes, kinds)[b],
        ),
    ensures
        a == b,
{
    let p = survives(nodes, kinds);
    lemma_kept(nodes.len(), p);
    let k = kept(nodes, kinds);
    if a < b {
        assert(k[a] < k[b]);
        assert(p(k[a]));
        assert(operator::kind_of(nodes[k[b]]) != operator::kind_of(nodes[k[a]]));
    } else if b < a {
        assert(k[b] < k[a]);
        assert(p(k[b]));
        assert(operator::kind_of(nodes[k[a]]) != operator::kind_of(nodes[k[b]]));
    }
}

/// The node that is left of a listed kind is the last one of that kind.
pub proof fn lemma_the_last_is_left(nodes: Seq<NodeView>, kinds: Seq<PresentationKind>, i: int)
    requires
        0 <= i < nodes.len(),
        forall|j: int|
            i < j < nodes.len() ==> operator::kind_of(#[trigger] nodes[j]) != operator::kind_of(
                nodes[i],
            ),
    ensures
        coalesced(nodes, kinds).contains(nodes[i]),
{
    let p = survives(nodes, kinds);
    assert(positions(nodes.len())[i] == i);
    assert(positions(nodes.len()).contains(i));
    seqs::lemma_filter_contains(positions(nodes.len()), p, i);
    let k = kept(nodes, kinds);
    let a = choose|a: int| 0 <= a < k.len() && k[a] == i;
    assert(coalesced(nodes, kinds)[a] == nodes[i]);
}

/// What is not of a listed kind is left as it was, in the order it was.
pub proof fn lemma_other_kinds_untouched(nodes: Seq<NodeView>, kinds: Seq<PresentationKind>)
    ensures
        coalesced(nodes, kinds).filter(|n: NodeView| !kinds.contains(operator::kind_of(n)))
            == nodes.filter(|n: NodeView| !kinds.contains(operator::kind_of(n))),
{
    lemma_other_kinds_prefix(nodes, kinds, nodes.len());
    assert(nodes.take(nodes.len() as int) =~= nodes);
}

proof fn lemma_other_kinds_prefix(nodes: Seq<NodeView>, kinds: Seq<PresentationKind>, n: nat)
    requires
        n <= nodes.len(),
    ensures
        ({
            let other = |x: NodeView| !kinds.contains(operator::kind_of(x));
            positions(n).filter(survives(nodes, kinds)).map_values(|i: int| nodes[i]).filter(other)
                == nodes.take(n as int).filter(other)
        }),
    decreases n,
{
    let other = |x: NodeView| !kinds.contains(operator::kind_of(x));
    let p = survives(nodes, kinds);
    let at = |i: int| nodes[i];
    if n == 0 {
        seqs::lemma_filter_empty(positions(0), p);
        seqs::lemma_filter_empty(positions(0).filter(p).map_values(at), other);
        seqs::lemma_filter_empty(nodes.take(0), other);
    } else {
        let m = (n - 1) as nat;
        lemma_other_kinds_prefix(nodes, kinds, m);
        assert(positions(n) =~= positions(m).push(m as int));
        seqs::lemma_filter_push(positions(m), p, m as int);
        assert(nodes.take(n as int) =~= nodes.take(m as int).push(nodes[m as int]));
        seqs::lemma_filter_push(nodes.take(m as int), other, nodes[m as int]);
        let seen = positions(m).filter(p);
        if p(m as int) {
            assert(seen.push(m as int).map_values(at) =~= seen.map_values(at).push(
                nodes[m as int],
            ));
            seqs::lemma_filter_push(seen.map_values(at), other, nodes[m as int]);
        }
    }
}

/// Collapsing what was collapsed changes nothing.
pub proof fn lemma_coalescing_again_changes_nothing(
    nodes: Seq<NodeView>,
    kinds: Seq<PresentationKind>,
)
    ensures
        coalesced(coalesced(nodes, kinds), kinds) == coalesced(nodes, kinds),
{
    let once = coalesced(nodes, kinds);
    let p = survives(once, kinds);
    assert forall|i: int| 0 <= i < once.len() implies #[trigger] p(i) by {
        if kinds.contains(operator::kind_of(once[i])) {
            assert forall|j: int| i < j < once.len() implies operator::kind_of(#[trigger] once[j])
                != operator::kind_of(once[i]) by {
                if operator::kind_of(once[j]) == operator::kind_of(once[i]) {
                    lemma_one_of_each_listed_kind(nodes, kinds, i, j);
                }
            }
        }
    }
    lemma_all_positions_kept(once.len(), p);
    assert(coalesced(once, kinds) =~= once);
}

/// Where no kind is listed, nothing collapses.
pub proof fn lemma_nothing_listed_nothing_collapses(
    nodes: Seq<NodeView>,
    kinds: Seq<PresentationKind>,
)
    requires
        kinds.len() == 0,
    ensures
        coalesced(nodes, kinds) == nodes,
{
    let p = survives(nodes, kinds);
    assert forall|i: int| 0 <= i < nodes.len() implies #[trigger] p(i) by {
        assert(!kinds.contains(operator::kind_of(nodes[i])));
    }
    lemma_all_positions_kept(nodes.len(), p);
    assert(coalesced(nodes, kinds) =~= nodes);
}

proof fn lemma_all_positions_kept(n: nat, p: spec_fn(int) -> bool)
    requires
        forall|i: int| 0 <= i < n ==> #[trigger] p(i),
    ensures
        positions(n).filter(p) == positions(n),
    decreases n,
{
    if n == 0 {
        seqs::lemma_filter_empty(positions(0), p);
        assert(positions(0) =~= Seq::<int>::empty());
    } else {
        let m = (n - 1) as nat;
        lemma_all_positions_kept(m, p);
        assert(positions(n) =~= positions(m).push(m as int));
        seqs::lemma_filter_push(positions(m), p, m as int);
    }
}

} // verus!
