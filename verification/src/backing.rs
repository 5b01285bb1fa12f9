//! Operations on the vectors that back the buckets.

use crate::sorting::{sorted, sorted_by, stable_by, total_ord, total_order};
use core::cmp::Ordering;
use vstd::prelude::*;

verus! {

/// `<[T]>::reverse` on the vector's slice: afterwards slot `i` holds what
/// slot `len - 1 - i` held.
#[verifier::external_body]
pub(crate) fn reverse_slots<T>(slots: &mut Vec<T>)
    ensures
        final(slots)@ == old(slots)@.reverse(),
{
    slots.reverse()
}

/// `<[T]>::sort_by` on the vector's slice, for a `compare` that is a total
/// order: afterwards the vector holds the same elements, none greater than
/// one that comes after it, and those that compare equal in the order they
/// had.
#[verifier::external_body]
pub(crate) fn sort_slots_by<T, F: Fn(&T, &T) -> Ordering>(slots: &mut Vec<T>, compare: F)
    requires
        total_order(compare),
    ensures
        final(slots)@.to_multiset() == old(slots)@.to_multiset(),
        sorted_by(final(slots)@, compare),
        stable_by(old(slots)@, final(slots)@, compare),
{
    slots.sort_by(compare)
}

/// `<[T]>::sort` on the vector's slice, for a `T` whose own order is
/// total: afterwards the vector holds the same elements, none greater than
/// one that comes after it.
#[verifier::external_body]
pub(crate) fn sort_slots<T: Ord>(slots: &mut Vec<T>)
    requires
        total_ord::<T>(),
    ensures
        final(slots)@.to_multiset() == old(slots)@.to_multiset(),
        sorted(final(slots)@),
{
    slots.sort()
}

/// `Hash::hash`: feeds `item` to `state`. What the hasher makes of it is
/// not modelled.
#[verifier::external_body]
pub(crate) fn hash_into<T: core::hash::Hash, H: core::hash::Hasher>(item: &T, state: &mut H) {
    item.hash(state)
}

} // verus!
