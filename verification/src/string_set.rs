//! Finite sets of strings kept in increasing order.
use vstd::prelude::*;

use crate::text::{sorted_set_insert, str_eq, string_views, strictly_sorted};

verus! {

/// A set of strings; its elements are kept strictly increasing, so
/// iteration follows code-point order.
#[derive(Debug)]
pub struct StringSet {
    items: Vec<String>,
}

impl StringSet {
    #[verifier::type_invariant]
    spec fn wf(self) -> bool {
        strictly_sorted(string_views(self.items@))
    }

    pub closed spec fn set_view(self) -> Set<Seq<char>> {
        string_views(self.items@).to_set()
    }

    pub fn new() -> (r: Self)
        ensures
            r@ == Set::<Seq<char>>::empty(),
    {
        let r = StringSet { items: Vec::new() };
        assert(string_views(r.items@).to_set() =~= Set::<Seq<char>>::empty());
        r
    }

    /// Whether `s` is an element.
    pub fn contains(&self, s: &str) -> (r: bool)
        ensures
            r == self@.contains(s@),
    {
        let ghost v = string_views(self.items@);
        let mut i: usize = 0;
        while i < self.items.len()
            invariant
                i <= self.items@.len(),
                v == string_views(self.items@),
                forall|j: int| 0 <= j < i ==> v[j] != s@,
            decreases self.items.len() - i,
        {
            if str_eq(self.items[i].as_str(), s) {
                assert(v.contains(s@)) by {
                    assert(v[i as int] == s@);
                }
                return true;
            }
            i = i + 1;
        }
        assert(!v.contains(s@));
        false
    }

    /// Adds `s`.
    pub fn insert(&mut self, s: String)
        ensures
            final(self)@ == old(self)@.insert(s@),
    {
        proof {
            use_type_invariant(&*self);
        }
        let mut items: Vec<String> = Vec::new();
        std::mem::swap(&mut items, &mut self.items);
        sorted_set_insert(&mut items, s);
        self.items = items;
    }

    /// Adds every element of `other`.
    pub fn extend(&mut self, other: &StringSet)
        ensures
            final(self)@ == old(self)@.union(other@),
    {
        let elements = other.elements();
        let ghost o = string_views(elements@);
        let mut i: usize = 0;
        while i < elements.len()
            invariant
                i <= elements@.len(),
                o == string_views(elements@),
                o.to_set() == other@,
                self@ == old(self)@.union(o.subrange(0, i as int).to_set()),
            decreases elements.len() - i,
        {
            self.insert(elements[i].clone());
            assert(o.subrange(0, i + 1).to_set() =~= o.subrange(0, i as int).to_set().insert(o[i as int]))
                by {
                assert(o.subrange(0, i + 1) =~= o.subrange(0, i as int).push(o[i as int]));
                o.subrange(0, i as int).lemma_push_to_set_commute(o[i as int]);
            }
            assert(self@ =~= old(self)@.union(o.subrange(0, i + 1).to_set()));
            i = i + 1;
        }
        assert(o.subrange(0, elements@.len() as int) =~= o);
    }

    /// The elements in increasing order.
    pub fn elements(&self) -> (r: &Vec<String>)
        ensures
            strictly_sorted(string_views(r@)),
            string_views(r@).to_set() == self@,
    {
        proof {
            use_type_invariant(self);
        }
        &self.items
    }

    /// Whether the set has no elements.
    pub fn is_empty(&self) -> (r: bool)
        ensures
            r == (self@ == Set::<Seq<char>>::empty()),
    {
        if self.items.len() == 0 {
            assert(string_views(self.items@) =~= Seq::<Seq<char>>::empty());
            assert(self@ =~= Set::<Seq<char>>::empty());
            true
        } else {
            assert(self@.contains(string_views(self.items@)[0]));
            false
        }
    }
}

impl View for StringSet {
    type V = Set<Seq<char>>;

    open spec fn view(&self) -> Set<Seq<char>> {
        self.set_view()
    }
}

} // verus!
