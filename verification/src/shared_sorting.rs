//! Sorting a shared list under a comparison function.

use crate::backing::{sort_slots, sort_slots_by};
use crate::model::clones_of;
use crate::shared_list::SharedList;
use crate::shared_unrolled::SharedUnrolledList;
use crate::sorting::{rearranged, rearranged_by, sorted, sorted_by, total_ord, total_order};
use core::cmp::Ordering;
use vstd::prelude::*;

verus! {

impl<T: Clone, const N: usize, const G: usize> SharedUnrolledList<T, N, G> {
    /// Sorts the list under `compare`, keeping elements that compare equal
    /// in the order they had. The list is taken apart into a vector, which
    /// is sorted and made a list again, so what is sorted are the elements
    /// themselves where nothing else holds their bucket and clones of them
    /// otherwise.
    pub fn sort_by<F: Fn(&T, &T) -> Ordering>(&mut self, compare: F)
        requires
            old(self).wf(),
            total_order(compare),
        ensures
            final(self).wf(),
            sorted_by(final(self)@, compare),
            rearranged_by(old(self)@, final(self)@, compare),
    {
        let mut list = Self::new();
        core::mem::swap(self, &mut list);
        let mut items = list.into_vec();
        let ghost copy = items@;
        sort_slots_by(&mut items, compare);
        let sorted = Self::from_vec(items);
        *self = sorted;
        proof {
            assert(clones_of(old(self)@, copy));
        }
    }

    /// Sorts the list in `T`'s own order, keeping equal elements in the
    /// order they had.
    pub fn sort(&mut self) where T: Ord
        requires
            old(self).wf(),
            total_ord::<T>(),
        ensures
            final(self).wf(),
            sorted(final(self)@),
            rearranged(old(self)@, final(self)@),
    {
        let mut list = Self::new();
        core::mem::swap(self, &mut list);
        let mut items = list.into_vec();
        let ghost copy = items@;
        sort_slots(&mut items);
        let sorted = Self::from_vec(items);
        *self = sorted;
        proof {
            assert(clones_of(old(self)@, copy));
        }
    }
}

impl<T: Clone, const N: usize, const G: usize> SharedList<T, N, G> {
    /// Sorts the list under `compare`, keeping elements that compare equal
    /// in the order they had. What is sorted are the elements themselves
    /// where nothing else holds their bucket and clones of them otherwise.
    pub fn sort_by<F: Fn(&T, &T) -> Ordering>(&mut self, compare: F)
        requires
            old(self).wf(),
            total_order(compare),
        ensures
            final(self).wf(),
            sorted_by(final(self)@, compare),
            rearranged_by(old(self)@, final(self)@, compare),
    {
        self.0.sort_by(compare)
    }

    /// Sorts the list in `T`'s own order.
    pub fn sort(&mut self) where T: Ord
        requires
            old(self).wf(),
            total_ord::<T>(),
        ensures
            final(self).wf(),
            sorted(final(self)@),
            rearranged(old(self)@, final(self)@),
    {
        self.0.sort()
    }
}

} // verus!
