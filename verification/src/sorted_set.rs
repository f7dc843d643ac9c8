//! A set kept in order.

use vstd::prelude::*;

use crate::sorted_map::{Ordered, SortedMap};

verus! {

/// A set whose elements are kept in increasing order.
#[derive(Debug, PartialEq)]
pub struct SortedSet<K: Ordered> {
    elements: SortedMap<K, ()>,
}

impl<K: Ordered> View for SortedSet<K> {
    type V = Set<K::V>;

    closed spec fn view(&self) -> Set<K::V> {
        self.elements@.dom()
    }
}

impl<K: Ordered> SortedSet<K> {
    /// An empty set.
    pub fn new() -> (s: Self)
        ensures
            s@ == Set::<K::V>::empty(),
    {
        let s: SortedSet<K> = SortedSet { elements: SortedMap::new() };
        assert(s@ =~= Set::<K::V>::empty());
        s
    }

    /// Adds `element`.
    pub fn insert(&mut self, element: K)
        ensures
            final(self)@ == old(self)@.insert(element@),
    {
        self.elements.insert(element, ());
        assert(self@ =~= old(self)@.insert(element@));
    }

    /// Takes `element` out; tells whether it was there.
    pub fn remove(&mut self, element: &K) -> (r: bool)
        ensures
            final(self)@ == old(self)@.remove(element@),
            r == old(self)@.contains(element@),
    {
        let removed = self.elements.remove(element);
        assert(self@ =~= old(self)@.remove(element@));
        removed.is_some()
    }

    /// Whether `element` is in the set.
    pub fn contains(&self, element: &K) -> (r: bool)
        ensures
            r == self@.contains(element@),
    {
        self.elements.contains_key(element)
    }

    /// The elements, in order.
    pub fn elements(&self) -> (r: &[K])
        ensures
            crate::sorted_map::increasing::<K>(crate::text::views(r@)),
            forall|k: K::V| #![auto] self@.contains(k) <==> crate::text::views(r@).contains(k),
    {
        self.elements.keys()
    }
}

impl<K: Ordered + Clone> Clone for SortedSet<K> {
    fn clone(&self) -> (r: Self)
        ensures
            crate::sorted_map::clones_keep_view::<K>() ==> r@ == self@,
    {
        SortedSet { elements: self.elements.clone() }
    }
}

} // verus!
