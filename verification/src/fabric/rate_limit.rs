//! Admission of intents under the rate limits of a realm.

use vstd::prelude::*;

use crate::fabric::operator::{IntentClass, Operator, OperatorView, Scope};
use crate::id::EntityId;
use crate::sorted_map::{Ordered, SortedMap};
use crate::text;

verus! {

/// Whether an intent may go on, or why it is dropped.
#[derive(Debug, PartialEq)]
pub enum Admission {
    Admit,
    /// Dropped, with the operator's own text where it has one.
    Drop { deny: Option<String> },
}

pub enum AdmissionView {
    Admit,
    Drop { deny: Option<text::Text> },
}

impl View for Admission {
    type V = AdmissionView;

    open spec fn view(&self) -> AdmissionView {
        match self {
            Admission::Admit => AdmissionView::Admit,
            Admission::Drop { deny } => AdmissionView::Drop { deny: text::opt_view(*deny) },
        }
    }
}

// ---------------------------------------------------------------------------
// Buckets
// ---------------------------------------------------------------------------

/// What a rate limit counts by: the operator's position in the realm, and the
/// actor where the limit is per actor.
#[derive(Debug, PartialEq)]
struct BucketKey {
    operator: usize,
    actor: Option<EntityId>,
}

/// A bucket as the contracts see it.
pub type Bucket = (int, Option<text::Text>);

impl View for BucketKey {
    type V = Bucket;

    closed spec fn view(&self) -> Bucket {
        (self.operator as int, text::opt_view(self.actor))
    }
}

impl Ordered for BucketKey {
    open spec fn before(a: Bucket, b: Bucket) -> bool {
        a.0 < b.0 || a.0 == b.0 && match (a.1, b.1) {
            (None, Some(_)) => true,
            (Some(x), Some(y)) => text::precedes(x, y),
            _ => false,
        }
    }

    proof fn before_irreflexive(a: Bucket) {
        if let Some(x) = a.1 {
            text::lemma_precedes_irreflexive(x);
        }
    }

    proof fn before_transitive(a: Bucket, b: Bucket, c: Bucket) {
        if Self::before(a, b) && Self::before(b, c) && a.1 is Some && a.0 == b.0 && b.0 == c.0 {
            text::lemma_precedes_transitive(a.1->0, b.1->0, c.1->0);
        }
    }

    proof fn before_total(a: Bucket, b: Bucket) {
        if a.1 is Some && b.1 is Some {
            text::lemma_precedes_total(a.1->0, b.1->0);
        }
    }

    fn is_before(&self, other: &BucketKey) -> (r: bool) {
        if self.operator != other.operator {
            return self.operator < other.operator;
        }
        match (&self.actor, &other.actor) {
            (None, Some(_)) => true,
            (Some(x), Some(y)) => x.is_before(y),
            _ => false,
        }
    }

    fn is_same(&self, other: &BucketKey) -> (r: bool) {
        self.operator == other.operator && match (&self.actor, &other.actor) {
            (None, None) => true,
            (Some(x), Some(y)) => x.is_same(y),
            _ => false,
        }
    }
}

// ---------------------------------------------------------------------------
// Admission
// ---------------------------------------------------------------------------

/// An intent asking to be admitted.
pub struct Asking {
    pub class: IntentClass,
    pub actor: text::Text,
    pub tick: int,
}

/// Whether `op` limits intents of this class.
pub open spec fn limits(op: OperatorView, class: IntentClass) -> bool {
    op matches OperatorView::RateLimit { on, .. } && on == class
}

/// The length of the window of `op`.
pub open spec fn window(op: OperatorView) -> int {
    match op {
        OperatorView::RateLimit { per_ticks, .. } => per_ticks as int,
        OperatorView::Coalesce { .. } => 0,
    }
}

/// The text that `op` denies with.
pub open spec fn denial(op: OperatorView) -> Option<text::Text> {
    match op {
        OperatorView::RateLimit { deny, .. } => deny,
        OperatorView::Coalesce { .. } => None,
    }
}

/// The bucket in which the operator `op` at position `at` counts `actor`.
pub open spec fn bucket(op: OperatorView, at: int, actor: text::Text) -> Bucket {
    match op {
        OperatorView::RateLimit { scope: Scope::PerActor, .. } => (at, Some(actor)),
        _ => (at, None),
    }
}

/// When something was last admitted in each bucket.
pub type Admitted = Map<Bucket, u64>;

/// Whether the operator at position `at` drops what asks: it limits that class,
/// and the window since the last admission in its bucket has not passed.
pub open spec fn drops(state: Admitted, ops: Seq<OperatorView>, ask: Asking, at: int) -> bool {
    let b = bucket(ops[at], at, ask.actor);
    &&& limits(ops[at], ask.class)
    &&& state.contains_key(b)
    &&& ask.tick - state[b] < window(ops[at])
}

/// The first operator, from position `from` on, that drops what asks.
pub open spec fn refusal(state: Admitted, ops: Seq<OperatorView>, ask: Asking, from: int) -> Option<
    int,
>
    decreases ops.len() - from,
{
    if from >= ops.len() {
        None
    } else if drops(state, ops, ask, from) {
        Some(from)
    } else {
        refusal(state, ops, ask, from + 1)
    }
}

/// What is answered: the first operator that drops has the word.
pub open spec fn verdict(state: Admitted, ops: Seq<OperatorView>, ask: Asking) -> AdmissionView {
    match refusal(state, ops, ask, 0) {
        Some(at) => AdmissionView::Drop { deny: denial(ops[at]) },
        None => AdmissionView::Admit,
    }
}

/// Whether an admission counts in the bucket `b`.
pub open spec fn counts(ops: Seq<OperatorView>, ask: Asking, b: Bucket) -> bool {
    &&& 0 <= b.0 < ops.len()
    &&& limits(ops[b.0], ask.class)
    &&& b == bucket(ops[b.0], b.0, ask.actor)
}

/// What is remembered once every operator that limits the intent has counted it.
pub open spec fn counted(state: Admitted, ops: Seq<OperatorView>, ask: Asking) -> Admitted {
    Map::new(
        |b: Bucket| state.contains_key(b) || counts(ops, ask, b),
        |b: Bucket| if counts(ops, ask, b) { ask.tick as u64 } else { state[b] },
    )
}

/// What is remembered afterwards: an admission counts with every operator that
/// limits it, a drop counts nowhere.
pub open spec fn remembered(state: Admitted, ops: Seq<OperatorView>, ask: Asking) -> Admitted {
    match verdict(state, ops, ask) {
        AdmissionView::Admit => counted(state, ops, ask),
        AdmissionView::Drop { .. } => state,
    }
}

/// Runtime state of the rate limits: when something was last admitted, by
/// operator and scope key.
#[derive(Debug, PartialEq)]
pub struct RateLimiterState {
    last: SortedMap<BucketKey, u64>,
}

impl View for RateLimiterState {
    type V = Admitted;

    closed spec fn view(&self) -> Admitted {
        self.last@
    }
}

impl Default for RateLimiterState {
    fn default() -> (r: RateLimiterState)
        ensures
            r@ == Map::<Bucket, u64>::empty(),
    {
        RateLimiterState { last: SortedMap::new() }
    }
}

fn key_of(op: &Operator, at: usize, actor: &EntityId) -> (r: BucketKey)
    ensures
        r@ == bucket(op@, at as int, actor@),
{
    match op {
        Operator::RateLimit { scope: Scope::PerActor, .. } => BucketKey {
            operator: at,
            actor: Some(actor.clone()),
        },
        _ => BucketKey { operator: at, actor: None },
    }
}

impl RateLimiterState {
    /// Whether the operator at position `at` drops what asks.
    fn drops_at(
        &self,
        operators: &[Operator],
        at: usize,
        class: IntentClass,
        actor: &EntityId,
        tick: u64,
    ) -> (r: bool)
        requires
            at < operators@.len(),
        ensures
            r == drops(
                self@,
                text::views(operators@),
                (Asking { class, actor: actor@, tick: tick as int }),
                at as int,
            ),
    {
        match &operators[at] {
            Operator::RateLimit { on, per_ticks, .. } => {
                if *on != class {
                    return false;
                }
                let key = key_of(&operators[at], at, actor);
                match self.last.get(&key) {
                    Some(last) => tick < *last || tick - *last < *per_ticks,
                    None => false,
                }
            },
            Operator::Coalesce { .. } => false,
        }
    }

    /// Decide whether an intent of `actor` is admitted at `tick`. It is when no
    /// rate limit on its class has admitted anything in its bucket within the
    /// limit's window; it then counts with all of them.
    pub fn admission(
        &mut self,
        operators: &[Operator],
        class: IntentClass,
        actor: &EntityId,
        tick: u64,
    ) -> (r: Admission)
        ensures
            ({
                let ops = text::views(operators@);
                let ask = Asking { class, actor: actor@, tick: tick as int };
                &&& r@ == verdict(old(self)@, ops, ask)
                &&& final(self)@ == remembered(old(self)@, ops, ask)
            }),
    {
        let ghost ops = text::views(operators@);
        let ghost ask = Asking { class, actor: actor@, tick: tick as int };
        let n = operators.len();
        let mut i: usize = 0;
        while i < n
            invariant
                n == operators@.len(),
                i <= n,
                ops == text::views(operators@),
                ask == (Asking { class, actor: actor@, tick: tick as int }),
                self@ == old(self)@,
                refusal(self@, ops, ask, 0) == refusal(self@, ops, ask, i as int),
            decreases n - i,
        {
            if self.drops_at(operators, i, class, actor, tick) {
                match &operators[i] {
                    Operator::RateLimit { deny, .. } => {
                        return Admission::Drop { deny: deny.clone() };
                    },
                    Operator::Coalesce { .. } => {},
                }
            }
            i = i + 1;
        }
        let ghost state = self@;
        assert(self@ =~= counted(state, ops.take(0), ask));
        for j in 0..n
            invariant
                n == operators@.len(),
                ops == text::views(operators@),
                ask == (Asking { class, actor: actor@, tick: tick as int }),
                self@ == counted(state, ops.take(j as int), ask),
        {
            let ghost before = self@;
            let ghost b = bucket(ops[j as int], j as int, actor@);
            let ghost now = ops.take(j + 1);
            match &operators[j] {
                Operator::RateLimit { on, .. } => {
                    if *on == class {
                        let key = key_of(&operators[j], j, actor);
                        self.last.insert(key, tick);
                        assert(counts(now, ask, b));
                    }
                },
                Operator::Coalesce { .. } => {},
            }
            proof {
                let prior = ops.take(j as int);
                assert forall|x: Bucket| counts(now, ask, x) <==> counts(prior, ask, x) || limits(
                    ops[j as int],
                    class,
                ) && x == b by {
                    if 0 <= x.0 < j {
                        assert(now[x.0] == prior[x.0]);
                    }
                }
                assert(self@ =~= counted(state, now, ask));
            }
        }
        assert(ops.take(n as int) =~= ops);
        Admission::Admit
    }
}

// ---------------------------------------------------------------------------
// Laws
// ---------------------------------------------------------------------------

/// Nothing is refused exactly where no operator drops; what is refused is
/// refused by the first that does.
pub proof fn lemma_refusal(state: Admitted, ops: Seq<OperatorView>, ask: Asking, from: int)
    requires
        0 <= from <= ops.len(),
    ensures
        match refusal(state, ops, ask, from) {
            Some(at) => from <= at < ops.len() && drops(state, ops, ask, at) && forall|j: int|
                from <= j < at ==> !#[trigger] drops(state, ops, ask, j),
            None => forall|j: int| from <= j < ops.len() ==> !#[trigger] drops(state, ops, ask, j),
        },
    decreases ops.len() - from,
{
    if from < ops.len() && !drops(state, ops, ask, from) {
        lemma_refusal(state, ops, ask, from + 1);
    }
}

/// Without rate limits on its class, every intent is admitted.
pub proof fn lemma_unlimited_is_admitted(state: Admitted, ops: Seq<OperatorView>, ask: Asking)
    requires
        forall|i: int| 0 <= i < ops.len() ==> !limits(#[trigger] ops[i], ask.class),
    ensures
        verdict(state, ops, ask) == AdmissionView::Admit,
        remembered(state, ops, ask) == state,
{
    lemma_refusal(state, ops, ask, 0);
    if let Some(at) = refusal(state, ops, ask, 0) {
        assert(!limits(ops[at], ask.class));
    }
    assert(counted(state, ops, ask) =~= state);
}

/// Whoever waits long enough is admitted: the window of every operator that
/// limits the intent must have passed since the last admission in its bucket.
pub proof fn lemma_waiting_is_enough(state: Admitted, ops: Seq<OperatorView>, ask: Asking)
    requires
        forall|i: int|
            #![trigger ops[i]]
            0 <= i < ops.len() && limits(ops[i], ask.class) && state.contains_key(
                bucket(ops[i], i, ask.actor),
            ) ==> ask.tick >= state[bucket(ops[i], i, ask.actor)] + window(ops[i]),
    ensures
        verdict(state, ops, ask) == AdmissionView::Admit,
{
    lemma_refusal(state, ops, ask, 0);
    if let Some(at) = refusal(state, ops, ask, 0) {
        assert(limits(ops[at], ask.class));
    }
}

/// What one actor is admitted for does not count against another, where all
/// limits are per actor.
pub proof fn lemma_actors_do_not_share_limits(
    state: Admitted,
    ops: Seq<OperatorView>,
    ask: Asking,
    other: Asking,
)
    requires
        ask.actor != other.actor,
        forall|i: int| 0 <= i < ops.len() ==> (#[trigger] ops[i] matches OperatorView::RateLimit {
            scope,
            ..
        } ==> scope == Scope::PerActor),
    ensures
        verdict(remembered(state, ops, ask), ops, other) == verdict(state, ops, other),
{
    let after = remembered(state, ops, ask);
    assert forall|i: int| 0 <= i < ops.len() implies drops(after, ops, other, i) == drops(
        state,
        ops,
        other,
        i,
    ) by {
        let b = bucket(ops[i], i, other.actor);
        if limits(ops[i], other.class) {
            assert(b == (i, Some(other.actor)));
            assert(!counts(ops, ask, b));
        }
    }
    lemma_refusal(state, ops, other, 0);
    lemma_refusal(after, ops, other, 0);
    match (refusal(state, ops, other, 0), refusal(after, ops, other, 0)) {
        (Some(x), Some(y)) => {
            if x < y {
                assert(drops(state, ops, other, x));
            } else if y < x {
                assert(drops(after, ops, other, y));
            }
        },
        (Some(x), None) => {
            assert(drops(state, ops, other, x));
        },
        (None, Some(y)) => {
            assert(drops(after, ops, other, y));
        },
        (None, None) => {},
    }
}

/// What is remembered after the first `n` of a series of requests.
pub open spec fn remembered_after(
    state: Admitted,
    ops: Seq<OperatorView>,
    asks: Seq<Asking>,
    n: int,
) -> Admitted
    decreases n,
{
    if n <= 0 {
        state
    } else {
        remembered(remembered_after(state, ops, asks, n - 1), ops, asks[n - 1])
    }
}

/// Whether the `i`-th of a series of requests is admitted.
pub open spec fn is_admitted(
    state: Admitted,
    ops: Seq<OperatorView>,
    asks: Seq<Asking>,
    i: int,
) -> bool {
    verdict(remembered_after(state, ops, asks, i), ops, asks[i]) == AdmissionView::Admit
}

/// Whether the requests come in the order of their ticks.
pub open spec fn in_tick_order(asks: Seq<Asking>) -> bool {
    &&& forall|i: int, j: int|
        #![trigger asks[i], asks[j]]
        0 <= i <= j < asks.len() ==> asks[i].tick <= asks[j].tick
    &&& forall|i: int| 0 <= i < asks.len() ==> 0 <= (#[trigger] asks[i]).tick <= u64::MAX
}

/// A bucket that has counted an admission remembers one at least as late, for
/// good.
proof fn lemma_bucket_remembers(
    state: Admitted,
    ops: Seq<OperatorView>,
    asks: Seq<Asking>,
    i: int,
    j: int,
    b: Bucket,
)
    requires
        in_tick_order(asks),
        0 <= i < j <= asks.len(),
        is_admitted(state, ops, asks, i),
        counts(ops, asks[i], b),
    ensures
        remembered_after(state, ops, asks, j).contains_key(b),
        remembered_after(state, ops, asks, j)[b] >= asks[i].tick,
    decreases j - i,
{
    if j > i + 1 {
        lemma_bucket_remembers(state, ops, asks, i, j - 1, b);
        assert(asks[i].tick <= asks[j - 1].tick);
    }
}

/// Admit at most one matching intent per window per scope key: of two requests
/// that a rate limit counts in one bucket, both of them admitted, the second
/// comes at least a window after the first, whatever was asked in between.
pub proof fn lemma_at_most_one_per_window(
    state: Admitted,
    ops: Seq<OperatorView>,
    asks: Seq<Asking>,
    i: int,
    j: int,
    at: int,
)
    requires
        in_tick_order(asks),
        0 <= i < j < asks.len(),
        0 <= at < ops.len(),
        limits(ops[at], asks[i].class),
        limits(ops[at], asks[j].class),
        bucket(ops[at], at, asks[i].actor) == bucket(ops[at], at, asks[j].actor),
        is_admitted(state, ops, asks, i),
        is_admitted(state, ops, asks, j),
    ensures
        asks[j].tick - asks[i].tick >= window(ops[at]),
{
    let b = bucket(ops[at], at, asks[i].actor);
    assert(counts(ops, asks[i], b));
    lemma_bucket_remembers(state, ops, asks, i, j, b);
    let now = remembered_after(state, ops, asks, j);
    lemma_refusal(now, ops, asks[j], 0);
    assert(!drops(now, ops, asks[j], at));
}

} // verus!
