//! Facts about sequences that several modules build on.

use vstd::prelude::*;

verus! {

/// Appending to a sequence appends to its filtered form what passes.
pub proof fn lemma_filter_push<A>(s: Seq<A>, p: spec_fn(A) -> bool, a: A)
    ensures
        s.push(a).filter(p) == if p(a) {
            s.filter(p).push(a)
        } else {
            s.filter(p)
        },
{
    reveal(Seq::filter);
    assert(s.push(a).drop_last() =~= s);
}

/// Nothing comes of filtering nothing.
pub proof fn lemma_filter_empty<A>(s: Seq<A>, p: spec_fn(A) -> bool)
    requires
        s.len() == 0,
    ensures
        s.filter(p) == Seq::<A>::empty(),
{
    reveal(Seq::filter);
    assert(s.filter(p) =~= Seq::<A>::empty());
}

/// What a filter lets through is what was there and passes.
pub proof fn lemma_filter_contains<A>(s: Seq<A>, p: spec_fn(A) -> bool, a: A)
    ensures
        s.filter(p).contains(a) <==> s.contains(a) && p(a),
    decreases s.len(),
{
    if s.len() == 0 {
        lemma_filter_empty(s, p);
    } else {
        let front = s.drop_last();
        let last = s.last();
        assert(s =~= front.push(last));
        lemma_filter_push(front, p, last);
        lemma_filter_contains(front, p, a);
        lemma_push_contains(front, last, a);
        if p(last) {
            lemma_push_contains(front.filter(p), last, a);
        }
    }
}

/// What passes of the beginning of a sequence is the beginning of what passes.
pub proof fn lemma_filter_prefix<A>(s: Seq<A>, p: spec_fn(A) -> bool, n: int)
    requires
        0 <= n <= s.len(),
    ensures
        s.take(n).filter(p).is_prefix_of(s.filter(p)),
    decreases s.len() - n,
{
    if n == s.len() {
        assert(s.take(n) =~= s);
    } else {
        assert(s.take(n + 1) =~= s.take(n).push(s[n]));
        lemma_filter_push(s.take(n), p, s[n]);
        lemma_filter_prefix(s, p, n + 1);
        let a = s.take(n).filter(p);
        let b = s.take(n + 1).filter(p);
        assert(a =~= b.take(a.len() as int));
        assert(a =~= s.filter(p).take(a.len() as int));
    }
}

/// What passes keeps its order: of two elements that pass, the one that stands
/// first is let through first.
pub proof fn lemma_filter_keeps_order<A>(s: Seq<A>, p: spec_fn(A) -> bool, i: int, j: int)
    requires
        0 <= i < j < s.len(),
        p(s[i]),
        p(s[j]),
    ensures
        exists|a: int, b: int|
            #![trigger s.filter(p)[a], s.filter(p)[b]]
            0 <= a < b < s.filter(p).len() && s.filter(p)[a] == s[i] && s.filter(p)[b] == s[j],
{
    let a = s.take(i).filter(p).len() as int;
    let b = s.take(j).filter(p).len() as int;
    assert(s.take(i + 1) =~= s.take(i).push(s[i]));
    assert(s.take(j + 1) =~= s.take(j).push(s[j]));
    lemma_filter_push(s.take(i), p, s[i]);
    lemma_filter_push(s.take(j), p, s[j]);
    lemma_filter_prefix(s, p, i + 1);
    lemma_filter_prefix(s, p, j + 1);
    assert(s.take(j).take(i + 1) =~= s.take(i + 1));
    lemma_filter_prefix(s.take(j), p, i + 1);
    assert(s.take(i + 1).filter(p)[a] == s.filter(p)[a]);
    assert(s.take(j + 1).filter(p)[b] == s.filter(p)[b]);
}

/// Each part of a concatenation stands in it as a whole.
pub proof fn lemma_flatten_part<A>(parts: Seq<Seq<A>>, n: int) -> (offset: int)
    requires
        0 <= n < parts.len(),
    ensures
        0 <= offset,
        offset + parts[n].len() <= parts.flatten().len(),
        forall|k: int|
            0 <= k < parts[n].len() ==> parts.flatten()[offset + k] == #[trigger] parts[n][k],
    decreases n,
{
    let first = parts.first();
    let rest = parts.drop_first();
    assert(parts.flatten() == first + rest.flatten());
    if n == 0 {
        0
    } else {
        let o = lemma_flatten_part(rest, n - 1);
        assert(rest[n - 1] == parts[n]);
        assert forall|k: int| 0 <= k < parts[n].len() implies parts.flatten()[first.len() + o + k]
            == #[trigger] parts[n][k] by {
            assert(rest.flatten()[o + k] == rest[n - 1][k]);
        }
        first.len() + o
    }
}

/// What a sequence contains after an element was appended.
pub proof fn lemma_push_contains<A>(s: Seq<A>, x: A, a: A)
    ensures
        s.push(x).contains(a) <==> s.contains(a) || a == x,
{
    if s.contains(a) {
        let i = choose|i: int| 0 <= i < s.len() && s[i] == a;
        assert(s.push(x)[i] == a);
    }
    assert(s.push(x)[s.len() as int] == x);
    if s.push(x).contains(a) && a != x {
        let i = choose|i: int| 0 <= i < s.push(x).len() && s.push(x)[i] == a;
        assert(s[i] == a);
    }
}

/// What a concatenation contains stands in one of its parts.
pub proof fn lemma_flatten_contains<A>(parts: Seq<Seq<A>>, a: A)
    requires
        parts.flatten().contains(a),
    ensures
        exists|i: int| 0 <= i < parts.len() && (#[trigger] parts[i]).contains(a),
    decreases parts.len(),
{
    if parts.len() > 0 {
        let first = parts.first();
        let rest = parts.drop_first();
        let k = choose|k: int| 0 <= k < parts.flatten().len() && parts.flatten()[k] == a;
        if k < first.len() {
            assert(first[k] == a);
            assert(parts[0].contains(a));
        } else {
            assert(rest.flatten()[k - first.len()] == a);
            lemma_flatten_contains(rest, a);
            let i = choose|i: int| 0 <= i < rest.len() && (#[trigger] rest[i]).contains(a);
            assert(parts[i + 1].contains(a));
        }
    }
}

} // verus!
