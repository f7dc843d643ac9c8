//! What the candidates decide, and which of them speaks.

use vstd::prelude::*;

use crate::fabric::gather::{Candidate, CandidateView};
use crate::fabric::handler::{self, Outcome, OutcomeView};
use crate::id::EntityId;
use crate::seqs;
use crate::sorted_map::Ordered;
use crate::text;

verus! {

/// The order-independent outcome of the Guard resolve pass.
#[derive(Debug, PartialEq)]
pub enum Decision {
    Denied,
    Allowed { destination: EntityId },
    Unresolved,
}

pub enum DecisionView {
    Denied,
    Allowed { destination: text::Text },
    Unresolved,
}

impl View for Decision {
    type V = DecisionView;

    open spec fn view(&self) -> DecisionView {
        match self {
            Decision::Denied => DecisionView::Denied,
            Decision::Allowed { destination } => DecisionView::Allowed {
                destination: destination@,
            },
            Decision::Unresolved => DecisionView::Unresolved,
        }
    }
}

impl Clone for Decision {
    fn clone(&self) -> (r: Decision)
        ensures
            r@ == self@,
    {
        match self {
            Decision::Denied => Decision::Denied,
            Decision::Allowed { destination } => Decision::Allowed {
                destination: destination.clone(),
            },
            Decision::Unresolved => Decision::Unresolved,
        }
    }
}

// ---------------------------------------------------------------------------
// Salience
// ---------------------------------------------------------------------------

/// Whether `a` is strictly more salient than `b`: by band first, then by
/// priority, then by the smaller owner id. An owned candidate beats an unowned
/// one.
pub open spec fn outranks(a: CandidateView, b: CandidateView) -> bool {
    let (ra, rb) = (handler::band_rank(a.band), handler::band_rank(b.band));
    if ra != rb {
        ra < rb
    } else if a.priority != b.priority {
        a.priority > b.priority
    } else {
        match (a.self_id, b.self_id) {
            (Some(x), Some(y)) => text::precedes(x, y),
            (Some(_), None) => true,
            (None, _) => false,
        }
    }
}

/// Whether position `i` holds the most salient candidate: none outranks it, and
/// it outranks all that stand before it.
pub open spec fn is_salient(s: Seq<CandidateView>, i: int) -> bool {
    &&& 0 <= i < s.len()
    &&& forall|j: int| 0 <= j < s.len() ==> !outranks(#[trigger] s[j], s[i])
    &&& forall|j: int| 0 <= j < i ==> outranks(s[i], #[trigger] s[j])
}

/// The position of the most salient candidate.
pub open spec fn salient_position(s: Seq<CandidateView>) -> int {
    choose|i: int| is_salient(s, i)
}

/// The most salient candidate, if there is any.
pub open spec fn most_salient(s: Seq<CandidateView>) -> Option<CandidateView> {
    if s.len() == 0 {
        None
    } else {
        Some(s[salient_position(s)])
    }
}

/// How candidates rank. A participant outranks structure and the world, and
/// structure outranks the world, whatever their priorities are. Within a band the
/// higher priority outranks the lower, whoever they belong to. Where band and
/// priority are the same, an owned candidate outranks an unowned one, and of two
/// owned ones that of the smaller id outranks the other; otherwise neither does.
pub proof fn lemma_bands_rank_before_priorities(a: CandidateView, b: CandidateView)
    ensures
        a.band is Participant && !(b.band is Participant) ==> outranks(a, b) && !outranks(b, a),
        a.band is Structure && b.band is Global ==> outranks(a, b) && !outranks(b, a),
        a.band == b.band && a.priority > b.priority ==> outranks(a, b) && !outranks(b, a),
        a.band == b.band && a.priority == b.priority && a.self_id is Some && b.self_id is None
            ==> outranks(a, b) && !outranks(b, a),
        a.band == b.band && a.priority == b.priority && a.self_id is None && b.self_id is None
            ==> !outranks(a, b),
        a.band == b.band && a.priority == b.priority && a.self_id is Some && b.self_id is Some ==> (
        outranks(a, b) <==> text::precedes(a.self_id->0, b.self_id->0)),
{
}

/// The most salient of a list is of the most salient band that is present in it: of
/// participants if there is one, else of structure if there is any, whatever the
/// priorities are; and within its band none has a higher priority.
pub proof fn lemma_the_most_salient_band_prevails(s: Seq<CandidateView>, i: int)
    requires
        0 <= i < s.len(),
    ensures
        ({
            let w = most_salient(s);
            &&& w is Some
            &&& s.contains(w->0)
            &&& s[i].band is Participant ==> w->0.band is Participant
            &&& s[i].band is Structure ==> w->0.band is Participant || w->0.band is Structure
            &&& s[i].band == w->0.band ==> s[i].priority <= w->0.priority
        }),
{
    lemma_most_salient_is_unsurpassed(s);
    let w = most_salient(s)->0;
    let k = choose|k: int| #![trigger s[k]] 0 <= k < s.len() && s[k] == w;
    assert(s[k] == w);
    assert(s[i] == s[i]);
}

/// Whether no candidate of `s` is more salient than `w`: none is of a more
/// salient band, none of the same band has a higher priority, and of those that
/// agree with it in both none is owned where it is not, nor by a smaller id.
pub open spec fn unsurpassed(s: Seq<CandidateView>, w: CandidateView) -> bool {
    &&& forall|j: int|
        0 <= j < s.len() && (#[trigger] s[j]).band is Participant ==> w.band is Participant
    &&& forall|j: int|
        0 <= j < s.len() && (#[trigger] s[j]).band is Structure ==> !(w.band is Global)
    &&& forall|j: int|
        0 <= j < s.len() && (#[trigger] s[j]).band == w.band ==> s[j].priority <= w.priority
    &&& forall|j: int|
        0 <= j < s.len() && (#[trigger] s[j]).band == w.band && s[j].priority == w.priority
            && s[j].self_id is Some ==> w.self_id is Some && !text::precedes(
            s[j].self_id->0,
            w.self_id->0,
        )
}

/// The most salient of a list is one of it, of the most salient band that is
/// present in it, with the highest priority in that band, and so on. Of several
/// that agree in band, priority and owner, it is the first.
pub proof fn lemma_most_salient_is_unsurpassed(s: Seq<CandidateView>)
    requires
        s.len() > 0,
    ensures
        most_salient(s) is Some,
        unsurpassed(s, most_salient(s)->0),
        exists|i: int|
            #![trigger s[i]]
            0 <= i < s.len() && s[i] == most_salient(s)->0 && forall|j: int|
                0 <= j < i ==> !((#[trigger] s[j]).band == s[i].band && s[j].priority
                    == s[i].priority && s[j].self_id == s[i].self_id),
{
    lemma_salient_exists(s);
    let i = salient_position(s);
    let w = s[i];
    assert forall|j: int| 0 <= j < s.len() implies !outranks(#[trigger] s[j], w) && {
        &&& s[j].band is Participant ==> w.band is Participant
        &&& s[j].band is Structure ==> !(w.band is Global)
        &&& s[j].band == w.band ==> s[j].priority <= w.priority
        &&& s[j].band == w.band && s[j].priority == w.priority && s[j].self_id is Some
            ==> w.self_id is Some && !text::precedes(s[j].self_id->0, w.self_id->0)
    } by {
        lemma_bands_rank_before_priorities(s[j], w);
        lemma_bands_rank_before_priorities(w, s[j]);
    }
    assert forall|j: int| 0 <= j < i implies !((#[trigger] s[j]).band == s[i].band && s[j].priority
        == s[i].priority && s[j].self_id == s[i].self_id) by {
        lemma_bands_rank_before_priorities(s[i], s[j]);
        if let Some(x) = s[j].self_id {
            text::lemma_precedes_irreflexive(x);
        }
    }
}

/// No candidate outranks itself.
pub proof fn lemma_outranks_irreflexive(a: CandidateView)
    ensures
        !outranks(a, a),
{
    if let Some(x) = a.self_id {
        text::lemma_precedes_irreflexive(x);
    }
}

/// Rank carries over: what outranks a candidate outranks all that do not
/// outrank that candidate.
pub proof fn lemma_outranks_carries_over(a: CandidateView, b: CandidateView, c: CandidateView)
    requires
        outranks(a, b),
        !outranks(c, b),
    ensures
        outranks(a, c),
{
    match (a.self_id, b.self_id, c.self_id) {
        (Some(x), Some(y), Some(z)) => {
            text::lemma_precedes_total(y, z);
            if text::precedes(y, z) && text::precedes(x, y) {
                text::lemma_precedes_transitive(x, y, z);
            }
        },
        _ => {},
    }
}

/// Of two candidates at most one outranks the other.
pub proof fn lemma_outranks_asymmetric(a: CandidateView, b: CandidateView)
    requires
        outranks(a, b),
    ensures
        !outranks(b, a),
{
    match (a.self_id, b.self_id) {
        (Some(x), Some(y)) => {
            if text::precedes(x, y) && text::precedes(y, x) {
                text::lemma_precedes_transitive(x, y, x);
                text::lemma_precedes_irreflexive(x);
            }
        },
        _ => {},
    }
}

proof fn lemma_salient_unique(s: Seq<CandidateView>, i: int)
    requires
        is_salient(s, i),
    ensures
        salient_position(s) == i,
{
    let k = salient_position(s);
    assert(is_salient(s, k));
    if k < i {
        assert(outranks(s[i], s[k]));
    } else if i < k {
        assert(outranks(s[k], s[i]));
    }
}

/// One step of a scan for the most salient candidate.
proof fn lemma_salient_step(s: Seq<CandidateView>, best: int)
    requires
        s.len() >= 2,
        is_salient(s.drop_last(), best),
    ensures
        outranks(s.last(), s[best]) ==> is_salient(s, s.len() - 1),
        !outranks(s.last(), s[best]) ==> is_salient(s, best),
{
    let front = s.drop_last();
    let last = s.len() - 1;
    assert forall|j: int| 0 <= j < last implies !outranks(#[trigger] s[j], s[best]) by {
        assert(front[j] == s[j]);
    }
    assert forall|j: int| 0 <= j < best implies outranks(s[best], #[trigger] s[j]) by {
        assert(front[j] == s[j]);
    }
    if outranks(s.last(), s[best]) {
        assert forall|j: int| 0 <= j < last implies outranks(s[last], #[trigger] s[j]) by {
            lemma_outranks_carries_over(s[last], s[best], s[j]);
        }
        assert forall|j: int| 0 <= j < s.len() implies !outranks(#[trigger] s[j], s[last]) by {
            if j == last {
                lemma_outranks_irreflexive(s[last]);
            } else {
                lemma_outranks_asymmetric(s[last], s[j]);
            }
        }
    }
}

/// Wherever there are candidates there is one most salient among them.
pub proof fn lemma_salient_exists(s: Seq<CandidateView>)
    requires
        s.len() > 0,
    ensures
        is_salient(s, salient_position(s)),
    decreases s.len(),
{
    if s.len() == 1 {
        lemma_outranks_irreflexive(s[0]);
        assert(is_salient(s, 0));
    } else {
        let front = s.drop_last();
        lemma_salient_exists(front);
        lemma_salient_step(s, salient_position(front));
    }
}

/// Whether `a` is more salient than `b`.
fn more_salient(a: &Candidate, b: &Candidate) -> (r: bool)
    ensures
        r == outranks(a@, b@),
{
    let ra = a.band.rank();
    let rb = b.band.rank();
    if ra != rb {
        return ra < rb;  // lower rank = more salient (Participant first)
    }
    if a.priority != b.priority {
        return a.priority > b.priority;  // higher priority wins
    }
    // stable tie-break by self_id: Some(smaller id) beats larger; Some beats None
    match (&a.self_id, &b.self_id) {
        (Some(x), Some(y)) => x.is_before(y),
        (Some(_), None) => true,
        (None, Some(_)) => false,
        (None, None) => false,
    }
}

/// Most salient candidate in `candidates`, or None if empty.
pub fn salient(candidates: &[Candidate]) -> (r: Option<&Candidate>)
    ensures
        text::opt_view(r) == most_salient(text::views(candidates@)),
        r is None <==> candidates@.len() == 0,
        r matches Some(w) ==> unsurpassed(text::views(candidates@), w@),
        r matches Some(w) ==> forall|i: int|
            #![trigger candidates@[i]]
            0 <= i < candidates@.len() ==> {
                &&& candidates@[i]@.band is Participant ==> w@.band is Participant
                &&& candidates@[i]@.band is Structure ==> !(w@.band is Global)
                &&& candidates@[i]@.band == w@.band ==> candidates@[i]@.priority <= w@.priority
            },
{
    if candidates.len() == 0 {
        return None;
    }
    proof {
        lemma_most_salient_is_unsurpassed(text::views(candidates@));
    }
    let mut best: usize = 0;
    let ghost all = text::views(candidates@);
    proof {
        lemma_outranks_irreflexive(all[0]);
        assert(is_salient(all.take(1), 0));
    }
    for i in 1..candidates.len()
        invariant
            all == text::views(candidates@),
            best < i,
            is_salient(all.take(i as int), best as int),
    {
        proof {
            assert(all.take(i + 1).drop_last() =~= all.take(i as int));
            lemma_salient_step(all.take(i + 1), best as int);
        }
        if more_salient(&candidates[i], &candidates[best]) {
            best = i;
        }
    }
    proof {
        assert(all.take(candidates@.len() as int) =~= all);
        lemma_salient_unique(all, best as int);
        let w = all[best as int];
        assert forall|i: int| #![trigger candidates@[i]] 0 <= i < candidates@.len() implies {
            &&& candidates@[i]@.band is Participant ==> w.band is Participant
            &&& candidates@[i]@.band is Structure ==> !(w.band is Global)
            &&& candidates@[i]@.band == w.band ==> candidates@[i]@.priority <= w.priority
        } by {
            assert(all[i] == candidates@[i]@);
        }
    }
    Some(&candidates[best])
}

// ---------------------------------------------------------------------------
// Decision
// ---------------------------------------------------------------------------

/// Whether a candidate denies.
pub open spec fn blocks() -> spec_fn(CandidateView) -> bool {
    |c: CandidateView| c.outcome is Block
}

/// Whether a candidate leads somewhere.
pub open spec fn traverses() -> spec_fn(CandidateView) -> bool {
    |c: CandidateView| c.outcome is Traverse
}

/// Whether any candidate denies.
pub open spec fn any_blocks(s: Seq<CandidateView>) -> bool {
    exists|i: int| 0 <= i < s.len() && (#[trigger] s[i]).outcome is Block
}

/// What the candidates decide: any `Block` denies, else the most salient
/// `Traverse` gives the destination, else nothing is resolved.
pub open spec fn decided(s: Seq<CandidateView>) -> DecisionView {
    if any_blocks(s) {
        DecisionView::Denied
    } else {
        match most_salient(s.filter(traverses())) {
            Some(c) => DecisionView::Allowed { destination: c.outcome->Traverse_0 },
            None => DecisionView::Unresolved,
        }
    }
}

/// The candidates that deny, in order.
pub fn blockers(candidates: &[Candidate]) -> (r: Vec<Candidate>)
    ensures
        text::views(r@) == text::views(candidates@).filter(blocks()),
{
    let mut out: Vec<Candidate> = Vec::new();
    let ghost all = text::views(candidates@);
    proof {
        seqs::lemma_filter_empty(all.take(0), blocks());
        assert(text::views(out@) =~= all.take(0).filter(blocks()));
    }
    for i in 0..candidates.len()
        invariant
            all == text::views(candidates@),
            text::views(out@) == all.take(i as int).filter(blocks()),
    {
        proof {
            assert(all.take(i + 1) =~= all.take(i as int).push(all[i as int]));
            seqs::lemma_filter_push(all.take(i as int), blocks(), all[i as int]);
        }
        if let Outcome::Block = &candidates[i].outcome {
            let ghost before = text::views(out@);
            out.push(candidates[i].clone());
            assert(text::views(out@) =~= before.push(all[i as int]));
        }
    }
    assert(all.take(candidates@.len() as int) =~= all);
    out
}

/// The candidates that lead somewhere, in order.
pub fn traversers(candidates: &[Candidate]) -> (r: Vec<Candidate>)
    ensures
        text::views(r@) == text::views(candidates@).filter(traverses()),
{
    let mut out: Vec<Candidate> = Vec::new();
    let ghost all = text::views(candidates@);
    proof {
        seqs::lemma_filter_empty(all.take(0), traverses());
        assert(text::views(out@) =~= all.take(0).filter(traverses()));
    }
    for i in 0..candidates.len()
        invariant
            all == text::views(candidates@),
            text::views(out@) == all.take(i as int).filter(traverses()),
    {
        proof {
            assert(all.take(i + 1) =~= all.take(i as int).push(all[i as int]));
            seqs::lemma_filter_push(all.take(i as int), traverses(), all[i as int]);
        }
        if let Outcome::Traverse(_) = &candidates[i].outcome {
            let ghost before = text::views(out@);
            out.push(candidates[i].clone());
            assert(text::views(out@) =~= before.push(all[i as int]));
        }
    }
    assert(all.take(candidates@.len() as int) =~= all);
    out
}

/// Set-based outcome. Deny beats Traverse beats nothing.
pub fn resolve(candidates: &[Candidate]) -> (r: Decision)
    ensures
        r@ == decided(text::views(candidates@)),
        r@ is Denied <==> exists|i: int|
            0 <= i < candidates@.len() && (#[trigger] candidates@[i])@.outcome is Block,
{
    let ghost all = text::views(candidates@);
    proof {
        lemma_resolution(all);
    }
    for i in 0..candidates.len()
        invariant
            all == text::views(candidates@),
            forall|j: int| 0 <= j < i ==> !((#[trigger] all[j]).outcome is Block),
    {
        if let Outcome::Block = &candidates[i].outcome {
            assert(all[i as int].outcome is Block);
            return Decision::Denied;
        }
    }
    assert forall|i: int| 0 <= i < candidates@.len() implies !((
    #[trigger] candidates@[i])@.outcome is Block) by {
        assert(!(all[i].outcome is Block));
    }
    let open = traversers(candidates);
    if let Some(winner) = salient(&open) {
        proof {
            let passing = all.filter(traverses());
            lemma_salient_exists(passing);
            let k = salient_position(passing);
            assert(passing.contains(passing[k]));
            seqs::lemma_filter_contains(all, traverses(), passing[k]);
        }
        if let Outcome::Traverse(dest) = &winner.outcome {
            return Decision::Allowed { destination: dest.clone() };
        }
    }
    Decision::Unresolved
}

// ---------------------------------------------------------------------------
// Laws
// ---------------------------------------------------------------------------

/// Whether two candidates lead to different places though neither outranks the
/// other.
pub open spec fn rivals(a: CandidateView, b: CandidateView) -> bool {
    &&& a.outcome is Traverse
    &&& b.outcome is Traverse
    &&& a.outcome != b.outcome
    &&& !outranks(a, b)
    &&& !outranks(b, a)
}

/// The decision does not depend on the order in which the candidates come, nor
/// on how often one is repeated, unless two that lead to different places rank
/// the same.
pub proof fn lemma_decision_ignores_order(s: Seq<CandidateView>, t: Seq<CandidateView>)
    requires
        forall|c: CandidateView| #![auto] s.contains(c) <==> t.contains(c),
        forall|a: CandidateView, b: CandidateView|
            #![trigger s.contains(a), s.contains(b)]
            s.contains(a) && s.contains(b) ==> !rivals(a, b),
    ensures
        decided(s) == decided(t),
{
    if any_blocks(s) {
        let i = choose|i: int| 0 <= i < s.len() && (#[trigger] s[i]).outcome is Block;
        assert(s.contains(s[i]));
        let j = choose|j: int| 0 <= j < t.len() && t[j] == s[i];
        assert(t[j].outcome is Block);
    }
    if any_blocks(t) {
        let i = choose|i: int| 0 <= i < t.len() && (#[trigger] t[i]).outcome is Block;
        assert(t.contains(t[i]));
        let j = choose|j: int| 0 <= j < s.len() && s[j] == t[i];
        assert(s[j].outcome is Block);
    }
    let ps = s.filter(traverses());
    let pt = t.filter(traverses());
    assert forall|c: CandidateView| #![auto] ps.contains(c) <==> pt.contains(c) by {
        seqs::lemma_filter_contains(s, traverses(), c);
        seqs::lemma_filter_contains(t, traverses(), c);
    }
    if ps.len() > 0 {
        assert(ps.contains(ps[0]));
    }
    if pt.len() > 0 {
        assert(pt.contains(pt[0]));
    }
    if ps.len() > 0 && pt.len() > 0 {
        lemma_salient_exists(ps);
        lemma_salient_exists(pt);
        let a = ps[salient_position(ps)];
        let b = pt[salient_position(pt)];
        assert(ps.contains(a) && pt.contains(b));
        assert(ps.contains(b) && pt.contains(a));
        seqs::lemma_filter_contains(s, traverses(), a);
        seqs::lemma_filter_contains(s, traverses(), b);
        let j = choose|j: int| 0 <= j < ps.len() && ps[j] == b;
        assert(!outranks(ps[j], a));
        let k = choose|k: int| 0 <= k < pt.len() && pt[k] == a;
        assert(!outranks(pt[k], b));
        assert(!rivals(a, b));
    }
}

/// One `Block` denies, whatever else is there.
pub proof fn lemma_block_denies(s: Seq<CandidateView>, c: CandidateView)
    requires
        s.contains(c),
        c.outcome is Block,
    ensures
        decided(s) is Denied,
{
    let i = choose|i: int| 0 <= i < s.len() && s[i] == c;
    assert(s[i].outcome is Block);
}

/// What a list of candidates comes to: one that blocks denies. Where none blocks,
/// movement is allowed exactly where some candidate leads somewhere, and it goes
/// to where the most salient of those leads. Otherwise nothing is resolved.
pub proof fn lemma_resolution(s: Seq<CandidateView>)
    ensures
        decided(s) is Denied <==> exists|i: int|
            0 <= i < s.len() && (#[trigger] s[i]).outcome is Block,
        decided(s) is Unresolved <==> forall|i: int|
            0 <= i < s.len() ==> (#[trigger] s[i]).outcome is Allow,
        decided(s) is Allowed ==> exists|i: int|
            #![trigger s[i]]
            0 <= i < s.len() && s[i].outcome == OutcomeView::Traverse(decided(s)->destination)
                && forall|j: int|
                0 <= j < s.len() && (#[trigger] s[j]).outcome is Traverse ==> unsurpassed(
                    seq![s[j]],
                    s[i],
                ),
{
    let p = s.filter(traverses());
    if any_blocks(s) {
        let i = choose|i: int| 0 <= i < s.len() && (#[trigger] s[i]).outcome is Block;
        assert(!(s[i].outcome is Allow));
    } else {
        assert forall|i: int|
            0 <= i < s.len() && !((#[trigger] s[i]).outcome is Allow) implies p.len() > 0 by {
            seqs::lemma_filter_contains(s, traverses(), s[i]);
            assert(s.contains(s[i]));
        }
        if p.len() > 0 {
            lemma_most_salient_is_unsurpassed(p);
            lemma_salient_exists(p);
            let w = p[salient_position(p)];
            assert(p.contains(w));
            seqs::lemma_filter_contains(s, traverses(), w);
            let i = choose|i: int| 0 <= i < s.len() && s[i] == w;
            assert(!(s[i].outcome is Allow));
            assert forall|j: int|
                0 <= j < s.len() && (#[trigger] s[j]).outcome is Traverse implies unsurpassed(
                seq![s[j]],
                s[i],
            ) by {
                assert(s.contains(s[j]));
                seqs::lemma_filter_contains(s, traverses(), s[j]);
                let k = choose|k: int| 0 <= k < p.len() && p[k] == s[j];
                assert(p[k].band == s[j].band);
            }
            assert(s[i].outcome == OutcomeView::Traverse(decided(s)->destination));
        }
    }
}

/// Movement is allowed only to where some candidate leads.
pub proof fn lemma_allowed_leads_somewhere(s: Seq<CandidateView>)
    requires
        decided(s) is Allowed,
    ensures
        exists|i: int|
            0 <= i < s.len() && (#[trigger] s[i]).outcome == OutcomeView::Traverse(
                decided(s)->destination,
            ),
{
    let p = s.filter(traverses());
    lemma_salient_exists(p);
    let c = p[salient_position(p)];
    assert(p.contains(c));
    seqs::lemma_filter_contains(s, traverses(), c);
    let i = choose|i: int| 0 <= i < s.len() && s[i] == c;
    assert(s[i].outcome == OutcomeView::Traverse(decided(s)->destination));
}

} // verus!
