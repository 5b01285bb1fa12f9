//! Sorting a list under a comparison function.

use crate::backing::{sort_slots, sort_slots_by};
use crate::model::clones_of;
use crate::list::GenericList;
use crate::unrolled::UnrolledList;
use core::cmp::Ordering;
use vstd::prelude::*;
use vstd::std_specs::cmp::OrdSpec;

verus! {

/// `o` is an answer that `compare` may give for `a` and `b`.
pub open spec fn answers<T, F: Fn(&T, &T) -> Ordering>(
    compare: F,
    a: T,
    b: T,
    o: Ordering,
) -> bool {
    call_ensures(compare, (&a, &b), o)
}

/// The answer for two values taken the other way round.
pub open spec fn flipped(o: Ordering) -> Ordering {
    match o {
        Ordering::Less => Ordering::Greater,
        Ordering::Equal => Ordering::Equal,
        Ordering::Greater => Ordering::Less,
    }
}

/// The answer for `a` and `c` that follows from the answers for `a` and
/// `b` and for `b` and `c`, where neither is `Greater`.
pub open spec fn chained(o: Ordering, p: Ordering) -> Ordering {
    if o == Ordering::Equal && p == Ordering::Equal {
        Ordering::Equal
    } else {
        Ordering::Less
    }
}

/// `compare` can be called on any two values, gives one answer for them,
/// the flipped answer for them the other way round, and is transitive.
pub open spec fn total_order<T, F: Fn(&T, &T) -> Ordering>(compare: F) -> bool {
    &&& forall|a: T, b: T| #[trigger] call_requires(compare, (&a, &b))
    &&& forall|a: T, b: T, o: Ordering, p: Ordering|
        #![trigger answers(compare, a, b, o), answers(compare, a, b, p)]
        answers(compare, a, b, o) && answers(compare, a, b, p) ==> o == p
    &&& forall|a: T, b: T, o: Ordering, p: Ordering|
        #![trigger answers(compare, a, b, o), answers(compare, b, a, p)]
        answers(compare, a, b, o) && answers(compare, b, a, p) ==> p == flipped(o)
    &&& forall|a: T, b: T, c: T, o: Ordering, p: Ordering, q: Ordering|
        #![trigger answers(compare, a, b, o), answers(compare, b, c, p), answers(compare, a, c, q)]
        answers(compare, a, b, o) && answers(compare, b, c, p) && answers(compare, a, c, q) && o
            != Ordering::Greater && p != Ordering::Greater ==> q == chained(o, p)
}

/// No element of `s` is greater under `compare` than one that comes after
/// it.
pub open spec fn sorted_by<T, F: Fn(&T, &T) -> Ordering>(s: Seq<T>, compare: F) -> bool {
    forall|i: int, j: int, o: Ordering|
        #![trigger answers(compare, s[i], s[j], o)]
        0 <= i < j < s.len() && answers(compare, s[i], s[j], o) ==> o != Ordering::Greater
}

/// `after` holds the elements of `before` in another order, in which
/// elements that `compare` calls equal come as they came in `before`.
pub open spec fn stable_by<T, F: Fn(&T, &T) -> Ordering>(
    before: Seq<T>,
    after: Seq<T>,
    compare: F,
) -> bool {
    exists|from: Seq<int>|
        {
            &&& #[trigger] from.len() == after.len()
            &&& before.len() == after.len()
            &&& forall|i: int|
                0 <= i < from.len() ==> 0 <= #[trigger] from[i] < before.len() && after[i]
                    == before[from[i]]
            &&& forall|i: int, j: int|
                #![trigger from[i], from[j]]
                0 <= i < j < from.len() ==> from[i] != from[j]
            &&& forall|i: int, j: int|
                #![trigger from[i], from[j]]
                0 <= i < j < from.len() && answers(compare, after[i], after[j], Ordering::Equal)
                    ==> from[i] < from[j]
        }
}

/// `after` holds the elements of `before`, or clones of them, in another
/// order.
pub open spec fn rearranged<T: Clone>(before: Seq<T>, after: Seq<T>) -> bool {
    exists|copy: Seq<T>|
        {
            &&& #[trigger] clones_of(before, copy)
            &&& copy.to_multiset() == after.to_multiset()
        }
}

/// `after` holds the elements of `before`, or clones of them, in another
/// order, in which those that `compare` calls equal come as they came in
/// `before`.
pub open spec fn rearranged_by<T: Clone, F: Fn(&T, &T) -> Ordering>(
    before: Seq<T>,
    after: Seq<T>,
    compare: F,
) -> bool {
    exists|copy: Seq<T>|
        {
            &&& #[trigger] clones_of(before, copy)
            &&& copy.to_multiset() == after.to_multiset()
            &&& stable_by(copy, after, compare)
        }
}

/// `T`'s own order gives one answer for two values, the flipped answer for
/// them the other way round, and is transitive.
pub open spec fn total_ord<T: Ord>() -> bool {
    &&& T::obeys_cmp_spec()
    &&& forall|a: T, b: T| #[trigger] b.cmp_spec(&a) == flipped(a.cmp_spec(&b))
    &&& forall|a: T, b: T, c: T|
        #![trigger a.cmp_spec(&b), b.cmp_spec(&c)]
        a.cmp_spec(&b) != Ordering::Greater && b.cmp_spec(&c) != Ordering::Greater ==> a.cmp_spec(
            &c,
        ) == chained(a.cmp_spec(&b), b.cmp_spec(&c))
}

/// No element of `s` is greater in `T`'s own order than one that comes
/// after it.
pub open spec fn sorted<T: Ord>(s: Seq<T>) -> bool {
    forall|i: int, j: int|
        #![trigger s[i], s[j]]
        0 <= i < j < s.len() ==> s[i].cmp_spec(&s[j]) != Ordering::Greater
}

impl<T: Clone, const N: usize, const G: usize> UnrolledList<T, N, G> {
    /// Sorts the list under `compare`, keeping elements that compare equal
    /// in the order they had. The list is taken apart into a vector, which
    /// is sorted and made a list again, so what is sorted are the elements
    /// themselves where nothing else holds their bucket and clones of them
    /// otherwise.
    pub fn sort_by<F: Fn(&T, &T) -> Ordering>(&mut self, compare: F)
        requires
            old(self).wf(),
            total_order(compare),
        ensures
            final(self).wf(),
            sorted_by(final(self)@, compare),
            rearranged_by(old(self)@, final(self)@, compare),
    {
        let mut list = Self::new();
        core::mem::swap(self, &mut list);
        let mut items = list.into_vec();
        let ghost copy = items@;
        sort_slots_by(&mut items, compare);
        let sorted = Self::from_vec(items);
        *self = sorted;
        proof {
            assert(clones_of(old(self)@, copy));
        }
    }

    /// Sorts the list in `T`'s own order, keeping equal elements in the
    /// order they had.
    pub fn sort(&mut self) where T: Ord
        requires
            old(self).wf(),
            total_ord::<T>(),
        ensures
            final(self).wf(),
            sorted(final(self)@),
            rearranged(old(self)@, final(self)@),
    {
        let mut list = Self::new();
        core::mem::swap(self, &mut list);
        let mut items = list.into_vec();
        let ghost copy = items@;
        sort_slots(&mut items);
        let sorted = Self::from_vec(items);
        *self = sorted;
        proof {
            assert(clones_of(old(self)@, copy));
        }
    }
}

impl<T: Clone, const N: usize, const G: usize> GenericList<T, N, G> {
    /// Sorts the list under `compare`, keeping elements that compare equal
    /// in the order they had. What is sorted are the elements themselves
    /// where nothing else holds their bucket and clones of them otherwise.
    pub fn sort_by<F: Fn(&T, &T) -> Ordering>(&mut self, compare: F)
        requires
            old(self).wf(),
            total_order(compare),
        ensures
            final(self).wf(),
            sorted_by(final(self)@, compare),
            rearranged_by(old(self)@, final(self)@, compare),
    {
        self.0.sort_by(compare)
    }

    /// Sorts the list in `T`'s own order.
    pub fn sort(&mut self) where T: Ord
        requires
            old(self).wf(),
            total_ord::<T>(),
        ensures
            final(self).wf(),
            sorted(final(self)@),
            rearranged(old(self)@, final(self)@),
    {
        self.0.sort()
    }
}

} // verus!
