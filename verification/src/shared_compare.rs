//! Equality and lexicographic order of shared lists, element by element.

use crate::compare::{lemma_seq_eq_step, seq_eq, seq_partial_order};
use crate::shared_list::SharedList;
use crate::shared_unrolled::SharedUnrolledList;
use core::cmp::Ordering;
use vstd::prelude::*;
use vstd::std_specs::cmp::{PartialEqSpec, PartialOrdSpec};

verus! {

impl<T: Clone + PartialEq, const N: usize, const G: usize> PartialEq for SharedUnrolledList<T, N, G> {
    fn eq(&self, other: &Self) -> (r: bool) {
        let mut left = self.iter();
        let mut right = other.iter();
        loop
            invariant
                left.wf(),
                right.wf(),
                T::obeys_eq_spec() ==> seq_eq(self.raw_view(), other.raw_view()) == seq_eq(
                    left.remaining(),
                    right.remaining(),
                ),
            decreases left.remaining().len(),
        {
            let ghost a = left.remaining();
            let ghost b = right.remaining();
            let x = left.next();
            let y = right.next();
            match x {
                Some(x) => match y {
                    Some(y) => {
                        proof {
                            lemma_seq_eq_step(a, b);
                        }
                        if !(*x == *y) {
                            return false;
                        }
                    },
                    None => {
                        return false;
                    },
                },
                None => {
                    return y.is_none();
                },
            }
        }
    }
}

impl<T: Clone + PartialEq, const N: usize, const G: usize> vstd::std_specs::cmp::PartialEqSpecImpl for SharedUnrolledList<T, N, G> {
    open spec fn obeys_eq_spec() -> bool {
        T::obeys_eq_spec()
    }

    open spec fn eq_spec(&self, other: &Self) -> bool {
        seq_eq(self.raw_view(), other.raw_view())
    }
}

impl<T: Clone + PartialOrd, const N: usize, const G: usize> PartialOrd for SharedUnrolledList<T, N, G> {
    fn partial_cmp(&self, other: &Self) -> (r: Option<Ordering>) {
        let mut left = self.iter();
        let mut right = other.iter();
        loop
            invariant
                left.wf(),
                right.wf(),
                T::obeys_partial_cmp_spec() ==> seq_partial_order(
                    self.raw_view(),
                    other.raw_view(),
                ) == seq_partial_order(left.remaining(), right.remaining()),
            decreases left.remaining().len(),
        {
            let x = left.next();
            let y = right.next();
            match x {
                Some(x) => match y {
                    Some(y) => {
                        match x.partial_cmp(y) {
                            Some(Ordering::Equal) => {},
                            other => {
                                return other;
                            },
                        }
                    },
                    None => {
                        return Some(Ordering::Greater);
                    },
                },
                None => {
                    if y.is_none() {
                        return Some(Ordering::Equal);
                    }
                    return Some(Ordering::Less);
                },
            }
        }
    }
}

impl<T: Clone + PartialOrd, const N: usize, const G: usize> vstd::std_specs::cmp::PartialOrdSpecImpl for SharedUnrolledList<T, N, G> {
    open spec fn obeys_partial_cmp_spec() -> bool {
        T::obeys_partial_cmp_spec()
    }

    open spec fn partial_cmp_spec(&self, other: &Self) -> Option<Ordering> {
        seq_partial_order(self.raw_view(), other.raw_view())
    }
}

impl<T: Clone + PartialEq, const N: usize, const G: usize> PartialEq for SharedList<T, N, G> {
    fn eq(&self, other: &Self) -> (r: bool) {
        self.0 == other.0
    }
}

impl<T: Clone + PartialEq, const N: usize, const G: usize> vstd::std_specs::cmp::PartialEqSpecImpl for SharedList<T, N, G> {
    open spec fn obeys_eq_spec() -> bool {
        T::obeys_eq_spec()
    }

    open spec fn eq_spec(&self, other: &Self) -> bool {
        seq_eq(self.raw_view(), other.raw_view())
    }
}

impl<T: Clone + PartialOrd, const N: usize, const G: usize> PartialOrd for SharedList<T, N, G> {
    fn partial_cmp(&self, other: &Self) -> (r: Option<Ordering>) {
        self.0.partial_cmp(&other.0)
    }
}

impl<T: Clone + PartialOrd, const N: usize, const G: usize> vstd::std_specs::cmp::PartialOrdSpecImpl for SharedList<T, N, G> {
    open spec fn obeys_partial_cmp_spec() -> bool {
        T::obeys_partial_cmp_spec()
    }

    open spec fn partial_cmp_spec(&self, other: &Self) -> Option<Ordering> {
        seq_partial_order(self.raw_view(), other.raw_view())
    }
}

impl<T: Clone + Eq, const N: usize, const G: usize> Eq for SharedUnrolledList<T, N, G> {

}

impl<T: Clone + Eq, const N: usize, const G: usize> Eq for SharedList<T, N, G> {

}

} // verus!
