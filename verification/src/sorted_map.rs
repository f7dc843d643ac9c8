//! A map kept in key order, so that walking it is deterministic.

use vstd::prelude::*;

use crate::seqs;
use crate::text;

verus! {

/// A key type with a strict total order on its views.
pub trait Ordered: View + Sized {
    /// Whether `a` comes strictly before `b`.
    spec fn before(a: Self::V, b: Self::V) -> bool;

    proof fn before_irreflexive(a: Self::V)
        ensures
            !Self::before(a, a),
    ;

    proof fn before_transitive(a: Self::V, b: Self::V, c: Self::V)
        ensures
            Self::before(a, b) && Self::before(b, c) ==> Self::before(a, c),
    ;

    proof fn before_total(a: Self::V, b: Self::V)
        ensures
            Self::before(a, b) || a == b || Self::before(b, a),
    ;

    fn is_before(&self, other: &Self) -> (r: bool)
        ensures
            r == Self::before(self@, other@),
    ;

    fn is_same(&self, other: &Self) -> (r: bool)
        ensures
            r == (self@ == other@),
    ;
}

/// Whether cloning a value of this type keeps its view.
pub open spec fn clones_keep_view<T: View + Clone>() -> bool {
    forall|a: T, b: T| #[trigger] cloned::<T>(a, b) ==> a@ == b@
}

/// A copy of the values in `v`.
pub fn clone_all<T: View + Clone>(v: &[T]) -> (r: Vec<T>)
    requires
        clones_keep_view::<T>(),
    ensures
        text::views(r@) == text::views(v@),
{
    let mut out: Vec<T> = Vec::new();
    for i in 0..v.len()
        invariant
            clones_keep_view::<T>(),
            out@.len() == i,
            forall|j: int| 0 <= j < i ==> (#[trigger] out@[j])@ == v@[j]@,
    {
        let x = v[i].clone();
        assert(cloned::<T>(v@[i as int], x));
        out.push(x);
    }
    assert(text::views(out@) =~= text::views(v@));
    out
}

/// Whether `keys` comes in strictly increasing order.
pub open spec fn increasing<K: Ordered>(keys: Seq<K::V>) -> bool {
    forall|i: int, j: int|
        #![trigger keys[i], keys[j]]
        0 <= i < j < keys.len() ==> K::before(keys[i], keys[j])
}

/// Whether `keys` lists the keys of `m`, each once, in increasing order.
pub open spec fn lists_keys<K: Ordered, W>(keys: Seq<K::V>, m: Map<K::V, W>) -> bool {
    &&& increasing::<K>(keys)
    &&& forall|k: K::V| #![auto] m.contains_key(k) <==> keys.contains(k)
}

/// The keys of `m` in increasing order.
pub open spec fn in_order<K: Ordered, W>(m: Map<K::V, W>) -> Seq<K::V> {
    choose|keys: Seq<K::V>| lists_keys::<K, W>(keys, m)
}

/// The values of `m` in the order of their keys.
pub open spec fn values_in_order<K: Ordered, W>(m: Map<K::V, W>) -> Seq<W> {
    let keys = in_order::<K, W>(m);
    Seq::new(keys.len(), |i: int| m[keys[i]])
}

/// There is only one increasing listing of the keys of a map.
pub proof fn lemma_listing_unique<K: Ordered, W>(a: Seq<K::V>, b: Seq<K::V>, m: Map<K::V, W>)
    requires
        lists_keys::<K, W>(a, m),
        lists_keys::<K, W>(b, m),
    ensures
        a == b,
{
    lemma_increasing_unique::<K>(a, b);
}

/// An increasing sequence is determined by what it contains.
pub proof fn lemma_increasing_unique<K: Ordered>(a: Seq<K::V>, b: Seq<K::V>)
    requires
        increasing::<K>(a),
        increasing::<K>(b),
        forall|k: K::V| #![auto] a.contains(k) <==> b.contains(k),
    ensures
        a == b,
    decreases a.len(),
{
    if a.len() == 0 {
        if b.len() > 0 {
            assert(b.contains(b[0]));
        }
        assert(a =~= b);
    } else {
        assert(a.contains(a[0]));
        let j = choose|j: int| 0 <= j < b.len() && b[j] == a[0];
        assert(b.contains(b[0]));
        let i = choose|i: int| 0 <= i < a.len() && a[i] == b[0];
        if j > 0 {
            // b[0] before b[j] == a[0], yet a[0] is the least of `a`
            assert(K::before(b[0], a[0]));
            if i > 0 {
                assert(K::before(a[0], b[0]));
                K::before_transitive(a[0], b[0], a[0]);
            }
            K::before_irreflexive(a[0]);
        }
        assert(a[0] == b[0]);
        let x = a.drop_first();
        let y = b.drop_first();
        assert forall|k: K::V| #![auto] x.contains(k) <==> y.contains(k) by {
            lemma_tail_contains::<K>(a, k);
            lemma_tail_contains::<K>(b, k);
        }
        lemma_increasing_unique::<K>(x, y);
        assert(a =~= seq![a[0]] + x);
        assert(b =~= seq![b[0]] + y);
    }
}

proof fn lemma_tail_contains<K: Ordered>(a: Seq<K::V>, k: K::V)
    requires
        increasing::<K>(a),
        a.len() > 0,
    ensures
        a.drop_first().contains(k) <==> a.contains(k) && k != a[0],
{
    let x = a.drop_first();
    if x.contains(k) {
        let i = choose|i: int| 0 <= i < x.len() && x[i] == k;
        assert(a[i + 1] == k);
        if k == a[0] {
            assert(K::before(a[0], a[i + 1]));
            K::before_irreflexive(k);
        }
    }
    if a.contains(k) && k != a[0] {
        let i = choose|i: int| 0 <= i < a.len() && a[i] == k;
        assert(x[i - 1] == k);
    }
}

/// An increasing sequence with one more element put in its place.
proof fn lemma_insert_increasing<K: Ordered>(s: Seq<K::V>, k: K::V) -> (t: Seq<K::V>)
    requires
        increasing::<K>(s),
        !s.contains(k),
    ensures
        increasing::<K>(t),
        forall|x: K::V| #![auto] t.contains(x) <==> s.contains(x) || x == k,
    decreases s.len(),
{
    if s.len() == 0 {
        let t = s.push(k);
        assert forall|x: K::V| #![auto] t.contains(x) <==> s.contains(x) || x == k by {
            seqs::lemma_push_contains(s, k, x);
        }
        t
    } else if K::before(s.last(), k) {
        let t = s.push(k);
        assert forall|x: K::V| #![auto] t.contains(x) <==> s.contains(x) || x == k by {
            seqs::lemma_push_contains(s, k, x);
        }
        assert forall|i: int, j: int|
            #![trigger t[i], t[j]]
            0 <= i < j < t.len() implies K::before(t[i], t[j]) by {
            if j == s.len() && i < s.len() - 1 {
                K::before_transitive(s[i], s.last(), k);
            }
        }
        t
    } else {
        let front = s.drop_last();
        let last = s.last();
        assert(s =~= front.push(last));
        assert forall|x: K::V| #![auto] s.contains(x) <==> front.contains(x) || x == last by {
            seqs::lemma_push_contains(front, last, x);
        }
        let u = lemma_insert_increasing::<K>(front, k);
        let t = u.push(last);
        assert forall|x: K::V| #![auto] t.contains(x) <==> s.contains(x) || x == k by {
            seqs::lemma_push_contains(u, last, x);
        }
        K::before_total(k, last);
        assert forall|i: int, j: int|
            #![trigger t[i], t[j]]
            0 <= i < j < t.len() implies K::before(t[i], t[j]) by {
            if j == u.len() {
                assert(u.contains(u[i]));
                if u[i] != k {
                    let n = choose|n: int| 0 <= n < front.len() && front[n] == u[i];
                    assert(K::before(s[n], s[s.len() - 1]));
                }
            }
        }
        t
    }
}

/// The keys of a finite map can be listed in increasing order.
pub proof fn lemma_finite_map_is_listed<K: Ordered, W>(m: Map<K::V, W>)
    requires
        m.dom().finite(),
    ensures
        lists_keys::<K, W>(in_order::<K, W>(m), m),
    decreases m.dom().len(),
{
    if m.dom().len() == 0 {
        assert(m.dom() =~= Set::empty());
        assert(lists_keys::<K, W>(Seq::empty(), m));
    } else {
        let k = m.dom().choose();
        let rest = m.remove(k);
        assert(rest.dom() =~= m.dom().remove(k));
        lemma_finite_map_is_listed::<K, W>(rest);
        let s = in_order::<K, W>(rest);
        let t = lemma_insert_increasing::<K>(s, k);
        assert(lists_keys::<K, W>(t, m));
    }
}

/// A map whose keys can be listed is finite.
pub proof fn lemma_listed_map_is_finite<K: Ordered, W>(keys: Seq<K::V>, m: Map<K::V, W>)
    requires
        lists_keys::<K, W>(keys, m),
    ensures
        m.dom().finite(),
{
    assert(m.dom() =~= keys.to_set());
}

/// What is picked from an increasing sequence is increasing.
pub proof fn lemma_filter_increases<K: Ordered>(s: Seq<K::V>, p: spec_fn(K::V) -> bool)
    requires
        increasing::<K>(s),
    ensures
        increasing::<K>(s.filter(p)),
    decreases s.len(),
{
    if s.len() == 0 {
        seqs::lemma_filter_empty(s, p);
    } else {
        let front = s.drop_last();
        let last = s.last();
        assert(increasing::<K>(front)) by {
            assert forall|i: int, j: int|
                #![trigger front[i], front[j]]
                0 <= i < j < front.len() implies K::before(front[i], front[j]) by {
                assert(front[i] == s[i] && front[j] == s[j]);
            }
        }
        lemma_filter_increases::<K>(front, p);
        assert(s =~= front.push(last));
        seqs::lemma_filter_push(front, p, last);
        let kept = front.filter(p);
        assert forall|i: int| 0 <= i < kept.len() implies K::before(#[trigger] kept[i], last) by {
            assert(kept.contains(kept[i]));
            seqs::lemma_filter_contains(front, p, kept[i]);
            let k = choose|k: int| 0 <= k < front.len() && front[k] == kept[i];
            assert(s[k] == kept[i] && s[s.len() - 1] == last);
        }
    }
}

/// A map whose entries are kept in increasing key order.
#[derive(Debug, PartialEq)]
pub struct SortedMap<K: Ordered, V: View> {
    keys: Vec<K>,
    values: Vec<V>,
}

impl<K: Ordered, V: View> View for SortedMap<K, V> {
    type V = Map<K::V, V::V>;

    closed spec fn view(&self) -> Map<K::V, V::V> {
        Map::new(
            |k: K::V| text::views(self.keys@).contains(k),
            |k: K::V| self.values@[text::views(self.keys@).index_of(k)]@,
        )
    }
}

impl<K: Ordered, V: View> SortedMap<K, V> {
    #[verifier::type_invariant]
    spec fn well_formed(self) -> bool {
        &&& self.keys@.len() == self.values@.len()
        &&& increasing::<K>(text::views(self.keys@))
    }

    /// What the entries say of the map, position by position.
    proof fn lemma_positions(&self)
        requires
            self.well_formed(),
        ensures
            lists_keys::<K, V::V>(text::views(self.keys@), self@),
            in_order::<K, V::V>(self@) == text::views(self.keys@),
            forall|i: int|
                #![trigger self.keys@[i]]
                #![trigger self.values@[i]]
                0 <= i < self.keys@.len() ==> self@.contains_key(self.keys@[i]@)
                    && self@[self.keys@[i]@] == self.values@[i]@,
    {
        let ks = text::views(self.keys@);
        assert(lists_keys::<K, V::V>(ks, self@));
        lemma_listing_unique::<K, V::V>(ks, in_order::<K, V::V>(self@), self@);
        assert forall|i: int|
            #![trigger self.keys@[i]]
            #![trigger self.values@[i]]
            0 <= i < self.keys@.len() implies self@.contains_key(self.keys@[i]@)
            && self@[self.keys@[i]@] == self.values@[i]@ by {
            let k = ks[i];
            assert(ks.contains(k));
            let j = ks.index_of(k);
            if i < j {
                K::before_irreflexive(k);
            } else if j < i {
                K::before_irreflexive(k);
            }
        }
    }

    /// An empty map.
    pub fn new() -> (m: Self)
        ensures
            m@ == Map::<K::V, V::V>::empty(),
    {
        let m: SortedMap<K, V> = SortedMap { keys: Vec::new(), values: Vec::new() };
        assert(m@ =~= Map::<K::V, V::V>::empty());
        m
    }

    /// How many entries there are.
    pub fn len(&self) -> (n: usize)
        ensures
            n == in_order::<K, V::V>(self@).len(),
            lists_keys::<K, V::V>(in_order::<K, V::V>(self@), self@),
    {
        proof {
            use_type_invariant(self);
            self.lemma_positions();
        }
        self.keys.len()
    }

    /// Whether there is no entry.
    pub fn is_empty(&self) -> (r: bool)
        ensures
            r == (self@ == Map::<K::V, V::V>::empty()),
    {
        proof {
            use_type_invariant(self);
            self.lemma_positions();
            if self.keys@.len() == 0 {
                assert(self@ =~= Map::<K::V, V::V>::empty());
            } else {
                assert(self@.contains_key(self.keys@[0]@));
            }
        }
        self.keys.len() == 0
    }

    /// The first position whose key does not come before `key`.
    fn position(&self, key: &K) -> (p: usize)
        ensures
            p <= self.keys@.len(),
            forall|i: int| 0 <= i < p ==> K::before((#[trigger] self.keys@[i])@, key@),
            forall|i: int| p <= i < self.keys@.len() ==> !K::before((#[trigger] self.keys@[i])@, key@),
    {
        proof {
            use_type_invariant(self);
        }
        let mut p: usize = 0;
        while p < self.keys.len() && self.keys[p].is_before(key)
            invariant
                p <= self.keys@.len(),
                forall|i: int| 0 <= i < p ==> K::before((#[trigger] self.keys@[i])@, key@),
            decreases self.keys@.len() - p,
        {
            p = p + 1;
        }
        proof {
            let ks = text::views(self.keys@);
            assert forall|i: int| p <= i < self.keys@.len() implies !K::before(
                (#[trigger] self.keys@[i])@,
                key@,
            ) by {
                if p < i && K::before(self.keys@[i]@, key@) {
                    assert(K::before(ks[p as int], ks[i]));
                    K::before_transitive(ks[p as int], ks[i], key@);
                }
            }
        }
        p
    }

    /// Where `key` stands, if it is there.
    fn find(&self, key: &K) -> (r: Option<usize>)
        ensures
            match r {
                Some(i) => i < self.keys@.len() && self.keys@[i as int]@ == key@
                    && self@.contains_key(key@) && self@[key@] == self.values@[i as int]@,
                None => !self@.contains_key(key@),
            },
    {
        proof {
            use_type_invariant(self);
            self.lemma_positions();
        }
        let p = self.position(key);
        if p < self.keys.len() && self.keys[p].is_same(key) {
            return Some(p);
        }
        proof {
            let ks = text::views(self.keys@);
            if ks.contains(key@) {
                let i = choose|i: int| 0 <= i < ks.len() && ks[i] == key@;
                assert(ks[i] == self.keys@[i]@);
                if i < p {
                    K::before_irreflexive(key@);
                } else if p < i {
                    assert(K::before(ks[p as int], ks[i]));
                    assert(ks[p as int] == self.keys@[p as int]@);
                }
            }
        }
        None
    }

    /// The value at `key`.
    pub fn get(&self, key: &K) -> (r: Option<&V>)
        ensures
            match r {
                Some(v) => self@.contains_key(key@) && v@ == self@[key@],
                None => !self@.contains_key(key@),
            },
    {
        match self.find(key) {
            Some(i) => {
                proof {
                    use_type_invariant(self);
                }
                Some(&self.values[i])
            },
            None => None,
        }
    }

    /// Whether there is a value at `key`.
    pub fn contains_key(&self, key: &K) -> (r: bool)
        ensures
            r == self@.contains_key(key@),
    {
        self.find(key).is_some()
    }

    /// The value at `key`, to be changed in place.
    pub fn get_mut(&mut self, key: &K) -> (r: Option<&mut V>)
        ensures
            match r {
                Some(v) => {
                    &&& old(self)@.contains_key(key@)
                    &&& (*v)@ == old(self)@[key@]
                    &&& final(self)@ == old(self)@.insert(key@, (*final(v))@)
                },
                None => !old(self)@.contains_key(key@) && *final(self) == *old(self),
            },
    {
        match self.find(key) {
            Some(i) => Some(self.slot(i)),
            None => None,
        }
    }

    /// Replacing the value at a position is inserting it at that position's key.
    proof fn lemma_update(self, changed: Self, i: int, v: V)
        requires
            self.well_formed(),
            0 <= i < self.keys@.len(),
            changed.keys@ == self.keys@,
            changed.values@ == self.values@.update(i, v),
        ensures
            changed@ == self@.insert(self.keys@[i]@, v@),
    {
        self.lemma_positions();
        changed.lemma_positions();
        assert forall|k: K::V| changed@.contains_key(k) implies changed@[k] == self@.insert(
            self.keys@[i]@,
            v@,
        )[k] by {
            let ks = text::views(self.keys@);
            let j = choose|j: int| 0 <= j < ks.len() && ks[j] == k;
            assert(changed@[changed.keys@[j]@] == changed.values@[j]@);
            assert(self@[self.keys@[j]@] == self.values@[j]@);
            if i != j && ks[i] == k {
                K::before_irreflexive(k);
            }
        }
        assert(changed@ =~= self@.insert(self.keys@[i]@, v@));
    }

    /// The value at position `i`, to be changed in place.
    fn slot(&mut self, i: usize) -> (v: &mut V)
        requires
            i < old(self).keys@.len(),
        ensures
            *v == old(self).values@[i as int],
            final(self)@ == old(self)@.insert(old(self).keys@[i as int]@, (*final(v))@),
    {
        proof {
            use_type_invariant(&*self);
            assert forall|changed: Self, v: V|
                #![trigger changed.view(), v.view()]
                changed.keys@ == self.keys@ && changed.values@ == self.values@.update(
                    i as int,
                    v,
                ) implies changed@ == self@.insert(self.keys@[i as int]@, v@) by {
                self.lemma_update(changed, i as int, v);
            }
        }
        &mut self.values[i]
    }

    /// Puts `value` at `key`, in place of what was there.
    pub fn insert(&mut self, key: K, value: V)
        ensures
            final(self)@ == old(self)@.insert(key@, value@),
    {
        let ghost before = *self;
        match self.find(&key) {
            Some(i) => {
                let slot = self.slot(i);
                *slot = value;
            },
            None => {
                let p = self.position(&key);
                let mut whole: SortedMap<K, V> = SortedMap::new();
                std::mem::swap(&mut whole, self);
                proof {
                    use_type_invariant(&whole);
                }
                let SortedMap { mut keys, mut values } = whole;
                let ghost old_keys = text::views(keys@);
                keys.insert(p, key);
                values.insert(p, value);
                proof {
                    let ks = text::views(keys@);
                    assert(ks =~= old_keys.insert(p as int, key@));
                    assert(increasing::<K>(ks)) by {
                        assert forall|i: int, j: int|
                            #![trigger ks[i], ks[j]]
                            0 <= i < j < ks.len() implies K::before(ks[i], ks[j]) by {
                            if i < p && j == p {
                                assert(ks[i] == before.keys@[i]@);
                            } else if i == p {
                                assert(ks[j] == before.keys@[j - 1]@);
                                K::before_total(key@, ks[j]);
                                assert(old_keys.contains(old_keys[j - 1]));
                            } else {
                                let i0 = if i < p { i } else { i - 1 };
                                let j0 = if j < p { j } else { j - 1 };
                                assert(K::before(old_keys[i0], old_keys[j0]));
                            }
                        }
                    }
                }
                *self = SortedMap { keys, values };
                proof {
                    before.lemma_positions();
                    self.lemma_positions();
                    let after = *self;
                    assert forall|k: K::V| after@.contains_key(k) <==> before@.insert(
                        key@,
                        value@,
                    ).contains_key(k) by {
                        let ks = text::views(after.keys@);
                        assert(ks[p as int] == key@);
                        if old_keys.contains(k) {
                            let i = choose|i: int| 0 <= i < old_keys.len() && old_keys[i] == k;
                            assert(ks[if i < p { i } else { i + 1 }] == k);
                        }
                        if ks.contains(k) && k != key@ {
                            let i = choose|i: int| 0 <= i < ks.len() && ks[i] == k;
                            assert(old_keys[if i < p { i } else { i - 1 }] == k);
                        }
                    }
                    assert forall|k: K::V| after@.contains_key(k) implies after@[k] == before@.insert(
                        key@,
                        value@,
                    )[k] by {
                        let ks = text::views(after.keys@);
                        let i = choose|i: int| 0 <= i < ks.len() && ks[i] == k;
                        assert(after@[after.keys@[i]@] == after.values@[i]@);
                        if i != p {
                            let i0 = if i < p { i } else { i - 1 };
                            assert(before@[before.keys@[i0]@] == before.values@[i0]@);
                            assert(before@.contains_key(k));
                        }
                    }
                    assert(after@ =~= before@.insert(key@, value@));
                }
            },
        }
    }

    /// Takes away the entry at `key` and gives back its value.
    pub fn remove(&mut self, key: &K) -> (r: Option<V>)
        ensures
            final(self)@ == old(self)@.remove(key@),
            match r {
                Some(v) => old(self)@.contains_key(key@) && v@ == old(self)@[key@],
                None => !old(self)@.contains_key(key@),
            },
    {
        let ghost before = *self;
        match self.find(key) {
            Some(p) => {
                let mut whole: SortedMap<K, V> = SortedMap::new();
                std::mem::swap(&mut whole, self);
                proof {
                    use_type_invariant(&whole);
                }
                let SortedMap { mut keys, mut values } = whole;
                let ghost old_keys = text::views(keys@);
                let _ = keys.remove(p);
                let v = values.remove(p);
                proof {
                    let ks = text::views(keys@);
                    assert(ks =~= old_keys.remove(p as int));
                    assert(increasing::<K>(ks)) by {
                        assert forall|i: int, j: int|
                            #![trigger ks[i], ks[j]]
                            0 <= i < j < ks.len() implies K::before(ks[i], ks[j]) by {
                            let i0 = if i < p { i } else { i + 1 };
                            let j0 = if j < p { j } else { j + 1 };
                            assert(K::before(old_keys[i0], old_keys[j0]));
                        }
                    }
                }
                *self = SortedMap { keys, values };
                proof {
                    before.lemma_positions();
                    self.lemma_positions();
                    let after = *self;
                    let ks = text::views(after.keys@);
                    assert forall|k: K::V| after@.contains_key(k) <==> before@.remove(
                        key@,
                    ).contains_key(k) by {
                        if ks.contains(k) {
                            let i = choose|i: int| 0 <= i < ks.len() && ks[i] == k;
                            let i0 = if i < p { i } else { i + 1 };
                            assert(old_keys[i0] == k);
                            if k == key@ {
                                K::before_irreflexive(k);
                                assert(old_keys[p as int] == k);
                            }
                        }
                        if old_keys.contains(k) && k != key@ {
                            let i = choose|i: int| 0 <= i < old_keys.len() && old_keys[i] == k;
                            assert(ks[if i < p { i } else { i - 1 }] == k);
                        }
                    }
                    assert forall|k: K::V| after@.contains_key(k) implies after@[k] == before@[k] by {
                        let i = choose|i: int| 0 <= i < ks.len() && ks[i] == k;
                        let i0 = if i < p { i } else { i + 1 };
                        assert(after@[after.keys@[i]@] == after.values@[i]@);
                        assert(before@[before.keys@[i0]@] == before.values@[i0]@);
                    }
                    assert(after@ =~= before@.remove(key@));
                }
                Some(v)
            },
            None => {
                assert(before@.remove(key@) =~= before@);
                None
            },
        }
    }

    /// The key at position `i`, in key order.
    pub fn key_at(&self, i: usize) -> (k: &K)
        requires
            i < in_order::<K, V::V>(self@).len(),
        ensures
            k@ == in_order::<K, V::V>(self@)[i as int],
            self@.contains_key(k@),
    {
        proof {
            use_type_invariant(self);
            self.lemma_positions();
        }
        &self.keys[i]
    }

    /// The value at position `i`, in key order.
    pub fn value_at(&self, i: usize) -> (v: &V)
        requires
            i < in_order::<K, V::V>(self@).len(),
        ensures
            self@.contains_key(in_order::<K, V::V>(self@)[i as int]),
            v@ == self@[in_order::<K, V::V>(self@)[i as int]],
    {
        proof {
            use_type_invariant(self);
            self.lemma_positions();
            assert(self@.contains_key(self.keys@[i as int]@));
        }
        &self.values[i]
    }

    /// The value at position `i`, in key order, to be changed in place.
    pub fn value_at_mut(&mut self, i: usize) -> (v: &mut V)
        requires
            i < in_order::<K, V::V>(old(self)@).len(),
        ensures
            (*v)@ == old(self)@[in_order::<K, V::V>(old(self)@)[i as int]],
            final(self)@ == old(self)@.insert(
                in_order::<K, V::V>(old(self)@)[i as int],
                (*final(v))@,
            ),
    {
        proof {
            use_type_invariant(&*self);
            self.lemma_positions();
            assert(self@.contains_key(self.keys@[i as int]@));
        }
        self.slot(i)
    }

    /// The keys, in order.
    pub fn keys(&self) -> (r: &[K])
        ensures
            text::views(r@) == in_order::<K, V::V>(self@),
            lists_keys::<K, V::V>(text::views(r@), self@),
    {
        proof {
            use_type_invariant(self);
            self.lemma_positions();
        }
        self.keys.as_slice()
    }

    /// The values, in the order of their keys.
    pub fn values(&self) -> (r: &[V])
        ensures
            text::views(r@) == values_in_order::<K, V::V>(self@),
    {
        proof {
            use_type_invariant(self);
            self.lemma_positions();
            assert(text::views(self.values@) =~= values_in_order::<K, V::V>(self@)) by {
                assert forall|i: int| 0 <= i < self.values@.len() implies text::views(
                    self.values@,
                )[i] == values_in_order::<K, V::V>(self@)[i] by {
                    assert(self@.contains_key(self.keys@[i]@));
                }
            }
        }
        self.values.as_slice()
    }
}

impl<K: Ordered + Clone, V: View + Clone> Clone for SortedMap<K, V> {
    fn clone(&self) -> (r: Self)
        ensures
            clones_keep_view::<K>() && clones_keep_view::<V>() ==> r@ == self@,
    {
        let mut copy: SortedMap<K, V> = SortedMap::new();
        proof {
            use_type_invariant(self);
            self.lemma_positions();
        }
        let ghost keep = clones_keep_view::<K>() && clones_keep_view::<V>();
        assert(keep ==> copy@ =~= self@.restrict(text::views(self.keys@.take(0)).to_set()));
        for i in 0..self.keys.len()
            invariant
                self.well_formed(),
                keep == (clones_keep_view::<K>() && clones_keep_view::<V>()),
                keep ==> copy@ =~= self@.restrict(text::views(self.keys@.take(i as int)).to_set()),
        {
            let k = self.keys[i].clone();
            let v = self.values[i].clone();
            proof {
                assert(cloned::<K>(self.keys@[i as int], k));
                assert(cloned::<V>(self.values@[i as int], v));
                self.lemma_positions();
                let now = text::views(self.keys@.take(i as int));
                let next = text::views(self.keys@.take(i + 1));
                assert(self@.contains_key(self.keys@[i as int]@));
                assert forall|x: K::V| next.to_set().contains(x) <==> now.to_set().contains(x) || x
                    == self.keys@[i as int]@ by {
                    assert(next =~= now.push(self.keys@[i as int]@));
                    if next.contains(x) {
                        let j = choose|j: int| 0 <= j < next.len() && next[j] == x;
                        if j < i {
                            assert(now[j] == x);
                        }
                    }
                    if now.contains(x) {
                        let j = choose|j: int| 0 <= j < now.len() && now[j] == x;
                        assert(next[j] == x);
                    }
                    assert(next[i as int] == self.keys@[i as int]@);
                }
            }
            copy.insert(k, v);
        }
        proof {
            self.lemma_positions();
            assert(self.keys@.take(self.keys@.len() as int) =~= self.keys@);
            if keep {
                let ks = text::views(self.keys@);
                assert(self@.restrict(ks.to_set()) =~= self@);
            }
        }
        copy
    }
}

} // verus!
