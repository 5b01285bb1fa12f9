//! Equality and lexicographic order of lists, element by element.

use crate::list::GenericList;
use crate::unrolled::UnrolledList;
use core::cmp::Ordering;
use vstd::prelude::*;
use vstd::std_specs::cmp::{PartialEqSpec, PartialOrdSpec};

verus! {

/// The two sequences have one length, and `==` holds of their elements
/// place by place.
pub open spec fn seq_eq<T: PartialEq>(a: Seq<T>, b: Seq<T>) -> bool {
    &&& a.len() == b.len()
    &&& forall|i: int| 0 <= i < a.len() ==> (#[trigger] a[i]).eq_spec(&b[i])
}

/// The order of two sequences by their first elements that do not compare
/// equal; a sequence that ends first comes before one that goes on.
pub open spec fn seq_partial_order<T: PartialOrd>(a: Seq<T>, b: Seq<T>) -> Option<Ordering>
    decreases a.len(),
{
    if a.len() == 0 {
        if b.len() == 0 {
            Some(Ordering::Equal)
        } else {
            Some(Ordering::Less)
        }
    } else if b.len() == 0 {
        Some(Ordering::Greater)
    } else {
        match a[0].partial_cmp_spec(&b[0]) {
            Some(Ordering::Equal) => seq_partial_order(a.skip(1), b.skip(1)),
            other => other,
        }
    }
}

/// Two sequences that have a first element each are equal place by place
/// just when their first elements are and the rest of them is.
pub proof fn lemma_seq_eq_step<T: PartialEq>(a: Seq<T>, b: Seq<T>)
    requires
        a.len() > 0,
        b.len() > 0,
    ensures
        seq_eq(a, b) == (a[0].eq_spec(&b[0]) && seq_eq(a.skip(1), b.skip(1))),
{
    if seq_eq(a, b) {
        assert forall|i: int| 0 <= i < a.skip(1).len() implies (#[trigger] a.skip(1)[i]).eq_spec(
            &b.skip(1)[i],
        ) by {
            assert(a[i + 1].eq_spec(&b[i + 1]));
        }
    }
    if a[0].eq_spec(&b[0]) && seq_eq(a.skip(1), b.skip(1)) {
        assert forall|i: int| 0 <= i < a.len() implies (#[trigger] a[i]).eq_spec(&b[i]) by {
            if i > 0 {
                assert(a.skip(1)[i - 1].eq_spec(&b.skip(1)[i - 1]));
            }
        }
    }
}

impl<T: Clone + PartialEq, const N: usize, const G: usize> PartialEq for UnrolledList<T, N, G> {
    fn eq(&self, other: &Self) -> (r: bool) {
        let mut left = self.iter();
        let mut right = other.iter();
        loop
            invariant
                left.wf(),
                right.wf(),
                T::obeys_eq_spec() ==> seq_eq(self.raw_view(), other.raw_view()) == seq_eq(
                    left.remaining(),
                    right.remaining(),
                ),
            decreases left.remaining().len(),
        {
            let ghost a = left.remaining();
            let ghost b = right.remaining();
            let x = left.next();
            let y = right.next();
            match x {
                Some(x) => match y {
                    Some(y) => {
                        proof {
                            lemma_seq_eq_step(a, b);
                        }
                        if !(*x == *y) {
                            return false;
                        }
                    },
                    None => {
                        return false;
                    },
                },
                None => {
                    return y.is_none();
                },
            }
        }
    }
}

impl<T: Clone + PartialEq, const N: usize, const G: usize> vstd::std_specs::cmp::PartialEqSpecImpl for UnrolledList<T, N, G> {
    open spec fn obeys_eq_spec() -> bool {
        T::obeys_eq_spec()
    }

    open spec fn eq_spec(&self, other: &Self) -> bool {
        seq_eq(self.raw_view(), other.raw_view())
    }
}

impl<T: Clone + PartialOrd, const N: usize, const G: usize> PartialOrd for UnrolledList<T, N, G> {
    fn partial_cmp(&self, other: &Self) -> (r: Option<Ordering>) {
        let mut left = self.iter();
        let mut right = other.iter();
        loop
            invariant
                left.wf(),
                right.wf(),
                T::obeys_partial_cmp_spec() ==> seq_partial_order(
                    self.raw_view(),
                    other.raw_view(),
                ) == seq_partial_order(left.remaining(), right.remaining()),
            decreases left.remaining().len(),
        {
            let x = left.next();
            let y = right.next();
            match x {
                Some(x) => match y {
                    Some(y) => {
                        match x.partial_cmp(y) {
                            Some(Ordering::Equal) => {},
                            other => {
                                return other;
                            },
                        }
                    },
                    None => {
                        return Some(Ordering::Greater);
                    },
                },
                None => {
                    if y.is_none() {
                        return Some(Ordering::Equal);
                    }
                    return Some(Ordering::Less);
                },
            }
        }
    }
}

impl<T: Clone + PartialOrd, const N: usize, const G: usize> vstd::std_specs::cmp::PartialOrdSpecImpl for UnrolledList<T, N, G> {
    open spec fn obeys_partial_cmp_spec() -> bool {
        T::obeys_partial_cmp_spec()
    }

    open spec fn partial_cmp_spec(&self, other: &Self) -> Option<Ordering> {
        seq_partial_order(self.raw_view(), other.raw_view())
    }
}

impl<T: Clone + PartialEq, const N: usize, const G: usize> PartialEq for GenericList<T, N, G> {
    fn eq(&self, other: &Self) -> (r: bool) {
        self.0 == other.0
    }
}

impl<T: Clone + PartialEq, const N: usize, const G: usize> vstd::std_specs::cmp::PartialEqSpecImpl for GenericList<T, N, G> {
    open spec fn obeys_eq_spec() -> bool {
        T::obeys_eq_spec()
    }

    open spec fn eq_spec(&self, other: &Self) -> bool {
        seq_eq(self.raw_view(), other.raw_view())
    }
}

impl<T: Clone + PartialOrd, const N: usize, const G: usize> PartialOrd for GenericList<T, N, G> {
    fn partial_cmp(&self, other: &Self) -> (r: Option<Ordering>) {
        self.0.partial_cmp(&other.0)
    }
}

impl<T: Clone + PartialOrd, const N: usize, const G: usize> vstd::std_specs::cmp::PartialOrdSpecImpl for GenericList<T, N, G> {
    open spec fn obeys_partial_cmp_spec() -> bool {
        T::obeys_partial_cmp_spec()
    }

    open spec fn partial_cmp_spec(&self, other: &Self) -> Option<Ordering> {
        seq_partial_order(self.raw_view(), other.raw_view())
    }
}

impl<T: Clone + Eq, const N: usize, const G: usize> Eq for UnrolledList<T, N, G> {

}

impl<T: Clone + Eq, const N: usize, const G: usize> Eq for GenericList<T, N, G> {

}

} // verus!
