//! The bucketed list over thread-local reference counting.

use crate::backing::reverse_slots;
use crate::model::{
    base_size, bucket_plan, clones_of, coalesced, grown, growth_rate, held, layout_skip,
    layout_take, lemma_cloned_vec, lemma_clones_concat, lemma_clones_refl,
    lemma_clones_reverse, lemma_clones_subrange, lemma_grown_bounds, lemma_reverse_concat,
    lemma_shown_concat, lemma_shown_cut_push, lemma_shown_index, lemma_shown_prefix,
    lemma_shown_reverse, lemma_shown_skip, lemma_shown_take, merge_front, shown,
};
use crate::shared::{rc_address, rc_try_unwrap, PointerFamily, RcPointer};
use std::rc::Rc;
use vstd::prelude::*;

verus! {

/// One bucket: a shared vector of elements in reverse logical order, the
/// number of its slots that show, the link to the next bucket, and the
/// most slots the vector may hold.
#[derive(Debug)]
pub struct UnrolledCell<T: Clone, const N: usize, const G: usize> {
    index: usize,
    elements: Rc<Vec<T>>,
    next: Option<UnrolledList<T, N, G>>,
    size: usize,
}

/// A handle to a chain of buckets. Cloning a handle shares the chain.
#[derive(Debug)]
pub struct UnrolledList<T: Clone, const N: usize, const G: usize>(Rc<UnrolledCell<T, N, G>>);

impl<T: Clone, const N: usize, const G: usize> Clone for UnrolledCell<T, N, G> {
    fn clone(&self) -> (r: Self)
        ensures
            r == *self,
    {
        UnrolledCell {
            index: self.index,
            elements: RcPointer::clone(&self.elements),
            next: match &self.next {
                Some(node) => Some(node.clone()),
                None => None,
            },
            size: self.size,
        }
    }
}

impl<T: Clone, const N: usize, const G: usize> Clone for UnrolledList<T, N, G> {
    fn clone(&self) -> (r: Self)
        ensures
            r == *self,
    {
        UnrolledList(RcPointer::clone(&self.0))
    }
}

impl<T: Clone, const N: usize, const G: usize> Drop for UnrolledCell<T, N, G> {
    /// Releases the chain behind this bucket link by link, stopping at the
    /// first bucket that something else still holds.
    fn drop(&mut self)
        opens_invariants none
        no_unwind
    {
        let mut cur: Option<UnrolledList<T, N, G>> = None;
        core::mem::swap(&mut cur, &mut self.next);
        loop
            decreases cur,
        {
            match cur {
                Some(node) => match rc_try_unwrap(node.0) {
                    Ok(mut cell) => {
                        cur = None;
                        core::mem::swap(&mut cur, &mut cell.next);
                    },
                    Err(_) => {
                        return ;
                    },
                },
                None => {
                    return ;
                },
            }
        }
    }
}

impl<T: Clone, const N: usize, const G: usize> UnrolledCell<T, N, G> {
    /// The elements this bucket shows, head first.
    pub closed spec fn live(&self) -> Seq<T> {
        shown(self.elements@, self.index as int)
    }

    /// The cursor lies within the vector, and the vector within the bucket's
    /// capacity.
    pub closed spec fn cell_wf(&self) -> bool {
        &&& self.index <= self.elements@.len()
        &&& self.elements@.len() <= self.size
        &&& self.size >= 1
        &&& self.index == 0 ==> self.elements@.len() == 0 && self.next is None
    }

    fn base_size() -> (r: usize)
        ensures
            r == base_size(N),
    {
        if N == 0 {
            1
        } else {
            N
        }
    }

    fn growth_rate() -> (r: usize)
        ensures
            r == growth_rate(G),
    {
        if G == 0 {
            1
        } else {
            G
        }
    }

    fn grown(size: usize) -> (r: usize)
        ensures
            r == grown(size, G),
    {
        match size.checked_mul(Self::growth_rate()) {
            Some(product) => product,
            None => usize::MAX,
        }
    }

    fn new() -> (r: Self)
        ensures
            r.cell_wf(),
            r.live() == Seq::<T>::empty(),
            r.next is None,
            r.index == 0,
            r.size == base_size(N),
    {
        UnrolledCell { index: 0, elements: RcPointer::new(Vec::new()), next: None, size: Self::base_size() }
    }

    fn new_with_capacity() -> (r: Self)
        ensures
            r.cell_wf(),
            r.live() == Seq::<T>::empty(),
            r.next is None,
            r.index == 0,
            r.size == base_size(N),
    {
        UnrolledCell {
            index: 0,
            elements: RcPointer::new(Vec::with_capacity(N)),
            next: None,
            size: Self::base_size(),
        }
    }

    fn car(&self) -> (r: Option<&T>)
        requires
            self.cell_wf(),
        ensures
            match r {
                Some(head) => self.live().len() > 0 && *head == self.live()[0],
                None => self.live().len() == 0,
            },
    {
        if self.index == 0 {
            return None;
        }
        proof {
            lemma_shown_index(self.elements@, self.index as int, 0);
        }
        Some(&self.elements[self.index - 1])
    }

    fn advance_cursor(&self) -> (r: Self)
        requires
            self.index >= 1,
        ensures
            r.index == self.index - 1,
            r.elements == self.elements,
            r.next == self.next,
            r.size == self.size,
    {
        UnrolledCell {
            index: self.index - 1,
            elements: RcPointer::clone(&self.elements),
            next: match &self.next {
                Some(node) => Some(node.clone()),
                None => None,
            },
            size: self.size,
        }
    }
}

impl<T: Clone, const N: usize, const G: usize> UnrolledList<T, N, G> {
    /// The elements of the list, head first.
    pub closed spec fn view(&self) -> Seq<T>
        decreases self,
    {
        match self.0.next {
            Some(rest) => self.0.live() + rest.view(),
            None => self.0.live(),
        }
    }

    /// Every bucket keeps its cursor within its vector and its vector within
    /// its capacity, and only a list of one bucket has a bucket that shows
    /// nothing.
    pub closed spec fn wf(&self) -> bool
        decreases self,
    {
        &&& self.0.cell_wf()
        &&& match self.0.next {
            Some(rest) => self.0.index >= 1 && rest.0.index >= 1 && rest.wf(),
            None => true,
        }
    }

    /// The number of buckets in the chain.
    pub closed spec fn bucket_count(&self) -> nat
        decreases self,
    {
        match self.0.next {
            Some(rest) => 1 + rest.bucket_count(),
            None => 1,
        }
    }

    /// The number of elements the first bucket shows.
    pub closed spec fn head_len(&self) -> nat {
        self.0.index as nat
    }

    /// The elements the first bucket shows, head first.
    pub closed spec fn head_view(&self) -> Seq<T> {
        self.0.live()
    }

    /// The number of slots in the first bucket's vector, shown or not.
    pub closed spec fn head_slots(&self) -> nat {
        self.0.elements@.len()
    }

    /// The capacity of the first bucket.
    pub closed spec fn head_size(&self) -> nat {
        self.0.size as nat
    }

    /// The capacity and the number of shown elements of each bucket, first
    /// bucket first.
    pub closed spec fn layout(&self) -> Seq<(usize, usize)>
        decreases self,
    {
        match self.0.next {
            Some(rest) => seq![(self.0.size, self.0.index)] + rest.layout(),
            None => seq![(self.0.size, self.0.index)],
        }
    }

    proof fn lemma_view_len(&self)
        requires
            self.wf(),
        ensures
            self@.len() >= self.0.index,
            self.0.index == 0 <==> self@.len() == 0,
            self.0.live().len() == self.0.index,
        decreases self,
    {
        match self.0.next {
            Some(rest) => {
                rest.lemma_view_len();
            },
            None => {},
        }
    }

    /// An empty list.
    pub fn new() -> (r: Self)
        ensures
            r.wf(),
            r@ == Seq::<T>::empty(),
            r.bucket_count() == 1,
            r.layout() == seq![(base_size(N), 0usize)],
    {
        UnrolledList(RcPointer::new(UnrolledCell::new()))
    }

    /// An empty list whose bucket has room for `N` elements set aside.
    pub fn new_with_capacity() -> (r: Self)
        ensures
            r.wf(),
            r@ == Seq::<T>::empty(),
            r.bucket_count() == 1,
            r.layout() == seq![(base_size(N), 0usize)],
    {
        UnrolledList(RcPointer::new(UnrolledCell::new_with_capacity()))
    }

    /// The number of handles that share the first bucket.
    pub fn strong_count(&self) -> (r: usize)
        ensures
            r >= 1,
    {
        RcPointer::strong_count(&self.0)
    }

    /// Whether the two handles share their first bucket. Handles that do
    /// are equal lists.
    pub fn ptr_eq(&self, other: &Self) -> (r: bool)
        ensures
            r ==> *self == *other,
    {
        RcPointer::ptr_eq(&self.0, &other.0)
    }

    /// Whether the first buckets share one vector and show the same number
    /// of its slots. Buckets that do are one window on one vector.
    pub fn shared_ptr_eq(&self, other: &Self) -> (r: bool)
        ensures
            r ==> self.same_head(other),
    {
        self.same_window(other, RcPointer::ptr_eq(&self.0.elements, &other.0.elements))
    }

    /// The address of the first bucket: a number that two handles have in
    /// common while they share the bucket.
    pub fn as_ptr_usize(&self) -> usize {
        rc_address(&self.0)
    }

    /// The address of the first bucket's vector.
    pub fn elements_as_ptr_usize(&self) -> usize {
        rc_address(&self.0.elements)
    }

    /// The slots of the first bucket's vector as they are stored, shown or
    /// not.
    pub closed spec fn head_store(&self) -> Seq<T> {
        self.0.elements@
    }

    /// The first buckets of the two lists hold equal vectors and show the
    /// same number of their slots, and so the same elements.
    pub open spec fn same_head(&self, other: &Self) -> bool {
        &&& self.head_store() == other.head_store()
        &&& self.head_len() == other.head_len()
        &&& self.head_slots() == other.head_slots()
        &&& self.head_view() == other.head_view()
    }

    /// Whether the first buckets are one window on their vectors, given
    /// whether the two vectors are one, as `same_vector` says: they are
    /// where the vectors are one and the buckets show the same number of
    /// slots.
    fn same_window(&self, other: &Self, same_vector: bool) -> (r: bool)
        requires
            same_vector ==> self.head_store() == other.head_store(),
        ensures
            r == (same_vector && self.head_len() == other.head_len()),
            r ==> self.same_head(other),
    {
        same_vector && self.0.index == other.0.index
    }

    /// The number of buckets in the chain.
    pub fn cell_count(&self) -> (r: usize)
        requires
            self.bucket_count() <= usize::MAX,
        ensures
            r == self.bucket_count(),
    {
        let mut cur = self;
        let mut count: usize = 1;
        loop
            invariant
                count + cur.next_count() == self.bucket_count(),
                self.bucket_count() <= usize::MAX,
                count >= 1,
            decreases cur,
        {
            match &cur.0.next {
                Some(rest) => {
                    cur = rest;
                    count = count + 1;
                },
                None => {
                    return count;
                },
            }
        }
    }

    spec fn next_count(&self) -> nat {
        match self.0.next {
            Some(rest) => rest.bucket_count(),
            None => 0,
        }
    }

    /// The number of elements.
    pub fn len(&self) -> (r: usize)
        requires
            self.wf(),
            self@.len() <= usize::MAX,
        ensures
            r == self@.len(),
    {
        let mut cur = self;
        let mut total: usize = 0;
        loop
            invariant
                cur.wf(),
                total + cur@.len() == self@.len(),
                self@.len() <= usize::MAX,
            decreases cur,
        {
            proof {
                cur.lemma_view_len();
            }
            total = total + cur.0.index;
            match &cur.0.next {
                Some(rest) => {
                    cur = rest;
                },
                None => {
                    return total;
                },
            }
        }
    }

    /// Whether the list has no element.
    pub fn is_empty(&self) -> (r: bool)
        requires
            self.wf(),
        ensures
            r == (self@.len() == 0),
    {
        proof {
            self.lemma_view_len();
        }
        self.0.index == 0
    }

    /// The number of elements the first bucket shows.
    pub fn index(&self) -> (r: usize)
        ensures
            r == self.head_len(),
    {
        self.0.index
    }

    /// A clone of the first element, or nothing if the list is empty.
    pub fn car(&self) -> (r: Option<T>)
        requires
            self.wf(),
        ensures
            match r {
                Some(head) => self@.len() > 0 && cloned(self@[0], head),
                None => self@.len() == 0,
            },
    {
        proof {
            self.lemma_view_len();
        }
        match self.0.car() {
            Some(head) => Some(head.clone()),
            None => None,
        }
    }

    /// The element at position `index` from the head, or nothing if the list
    /// is not that long.
    pub fn get(&self, index: usize) -> (r: Option<&T>)
        requires
            self.wf(),
        ensures
            match r {
                Some(found) => index < self@.len() && *found == self@[index as int],
                None => index >= self@.len(),
            },
    {
        let mut cur = self;
        let mut left: usize = index;
        let ghost mut passed: Seq<T> = Seq::empty();
        loop
            invariant
                cur.wf(),
                self@ == passed + cur@,
                left + passed.len() == index,
            decreases cur,
        {
            proof {
                cur.lemma_view_len();
            }
            if left < cur.0.index {
                proof {
                    lemma_shown_index(cur.0.elements@, cur.0.index as int, left as int);
                }
                return Some(&cur.0.elements[cur.0.index - left - 1]);
            }
            left = left - cur.0.index;
            match &cur.0.next {
                Some(rest) => {
                    proof {
                        assert(passed + cur@ =~= (passed + cur.0.live()) + rest@);
                        passed = passed + cur.0.live();
                    }
                    cur = rest;
                },
                None => {
                    return None;
                },
            }
        }
    }

    /// The last element, or nothing if the list is empty.
    pub fn last(&self) -> (r: Option<&T>)
        requires
            self.wf(),
        ensures
            match r {
                Some(found) => self@.len() > 0 && *found == self@.last(),
                None => self@.len() == 0,
            },
    {
        let mut cur = self;
        let ghost mut passed: Seq<T> = Seq::empty();
        loop
            invariant
                cur.wf(),
                self@ == passed + cur@,
                passed.len() == 0 || cur.0.index >= 1,
            decreases cur,
        {
            proof {
                cur.lemma_view_len();
            }
            match &cur.0.next {
                Some(rest) => {
                    proof {
                        assert(passed + cur@ =~= (passed + cur.0.live()) + rest@);
                        passed = passed + cur.0.live();
                    }
                    cur = rest;
                },
                None => {
                    if cur.0.index == 0 {
                        return None;
                    }
                    proof {
                        lemma_shown_index(cur.0.elements@, cur.0.index as int, cur.0.index - 1);
                    }
                    return Some(&cur.0.elements[0]);
                },
            }
        }
    }

    /// The list without its first element, sharing the buckets of this one,
    /// or nothing if the list has at most one element.
    pub fn cdr(&self) -> (r: Option<Self>)
        requires
            self.wf(),
        ensures
            match r {
                Some(rest) => {
                    &&& rest.wf()
                    &&& self@.len() >= 2
                    &&& rest@ == self@.skip(1)
                    &&& rest.layout() == layout_skip(self.layout(), 1)
                },
                None => self@.len() <= 1,
            },
    {
        proof {
            self.lemma_view_len();
        }
        if self.0.index > 1 {
            let rest = UnrolledList(RcPointer::new(self.0.advance_cursor()));
            proof {
                lemma_shown_skip(self.0.elements@, self.0.index as int, 1);
                assert(rest@ =~= self@.skip(1));
                assert(rest.layout() =~= layout_skip(self.layout(), 1));
            }
            Some(rest)
        } else {
            match &self.0.next {
                Some(rest) => {
                    proof {
                        rest.lemma_view_len();
                        assert(rest@ =~= self@.skip(1));
                        rest.lemma_layout_skip_none();
                        assert(self.layout().skip(1) =~= rest.layout());
                    }
                    Some(rest.clone())
                },
                None => None,
            }
        }
    }

    /// Dropping none of the elements leaves the layout of a list that has
    /// any as it is.
    proof fn lemma_layout_skip_none(&self)
        requires
            self.0.index >= 1,
        ensures
            layout_skip(self.layout(), 0) == self.layout(),
    {
        assert(layout_skip(self.layout(), 0) =~= self.layout());
    }

    /// Whether the list has more than one element.
    pub fn cdr_exists(&self) -> (r: bool)
        requires
            self.wf(),
        ensures
            r == (self@.len() >= 2),
    {
        proof {
            self.lemma_view_len();
            if let Some(rest) = &self.0.next {
                rest.lemma_view_len();
            }
        }
        self.0.index > 1 || self.0.next.is_some()
    }

    /// Puts `value` in front of the list. It goes into the first bucket if
    /// that bucket's vector is not full, after the slots that no longer
    /// show are cut off; otherwise into a new bucket in front of this list.
    pub fn cons_mut(&mut self, value: T)
        requires
            old(self).wf(),
        ensures
            final(self).wf(),
            final(self)@.len() == old(self)@.len() + 1,
            final(self)@[0] == value,
            clones_of(old(self)@, final(self)@.skip(1)),
            old(self).head_slots() < old(self).head_size() ==> {
                &&& final(self).layout() == seq![
                    (old(self).head_size() as usize, (old(self).head_len() + 1) as usize),
                ] + old(self).layout().skip(1)
                &&& final(self).head_slots() == old(self).head_len() + 1
            },
            old(self).head_slots() >= old(self).head_size() ==> {
                &&& final(self).layout() == seq![
                    (grown(old(self).head_size() as usize, G), 1usize),
                ] + old(self).layout()
                &&& final(self).head_slots() == 1
                &&& final(self)@ == seq![value] + old(self)@
            },
    {
        proof {
            self.lemma_view_len();
        }
        if self.0.elements.len() < self.0.size {
            let ghost before = *self;
            let cell = RcPointer::make_mut(&mut self.0);
            let elements = RcPointer::make_mut(&mut cell.elements);
            let ghost copied = elements@;
            proof {
                lemma_cloned_vec(&*before.0.elements, &*elements);
            }
            elements.truncate(cell.index);
            elements.push(value);
            cell.index = cell.index + 1;
            proof {
                let cursor = before.0.index as int;
                lemma_shown_cut_push(copied, cursor, value);
                lemma_clones_subrange(before.0.elements@, copied, 0, cursor);
                lemma_clones_reverse(
                    before.0.elements@.subrange(0, cursor),
                    copied.subrange(0, cursor),
                );
                assert(self.0.live() == seq![value] + shown(copied, cursor));
                assert(self.0.next == before.0.next);
                assert(self.layout() =~= seq![(before.0.size, (before.0.index + 1) as usize)]
                    + before.layout().skip(1));
                assert(self@.skip(1) =~= match before.0.next {
                    Some(rest) => shown(copied, cursor) + rest@,
                    None => shown(copied, cursor),
                });
                match before.0.next {
                    Some(rest) => {
                        lemma_clones_refl(rest@);
                        lemma_clones_concat(
                            before.0.live(),
                            shown(copied, cursor),
                            rest@,
                            rest@,
                        );
                    },
                    None => {},
                }
            }
        } else {
            let size = UnrolledCell::<T, N, G>::grown(self.0.size);
            let mut slots: Vec<T> = Vec::new();
            slots.push(value);
            let ghost before = *self;
            let fresh = UnrolledList(
                RcPointer::new(
                    UnrolledCell {
                        index: 1,
                        elements: RcPointer::new(slots),
                        next: Some(self.clone()),
                        size,
                    },
                ),
            );
            proof {
                assert(fresh.0.live() =~= seq![value]);
                assert(fresh@ =~= seq![value] + before@);
                assert(fresh@.skip(1) =~= before@);
                assert(growth_rate(G) >= 1);
                assert(before.0.size * growth_rate(G) >= before.0.size) by (nonlinear_arith)
                    requires
                        growth_rate(G) >= 1,
                        before.0.size >= 1,
                ;
            }
            *self = fresh;
        }
    }

    /// Puts `value` in front of the list, as [`Self::cons_mut`] does.
    pub fn push_front(&mut self, value: T)
        requires
            old(self).wf(),
        ensures
            final(self).wf(),
            final(self)@.len() == old(self)@.len() + 1,
            final(self)@[0] == value,
            clones_of(old(self)@, final(self)@.skip(1)),
            old(self).head_slots() < old(self).head_size() ==> {
                &&& final(self).layout() == seq![
                    (old(self).head_size() as usize, (old(self).head_len() + 1) as usize),
                ] + old(self).layout().skip(1)
                &&& final(self).head_slots() == old(self).head_len() + 1
            },
            old(self).head_slots() >= old(self).head_size() ==> {
                &&& final(self).layout() == seq![
                    (grown(old(self).head_size() as usize, G), 1usize),
                ] + old(self).layout()
                &&& final(self).head_slots() == 1
                &&& final(self)@ == seq![value] + old(self)@
            },
    {
        self.cons_mut(value)
    }

    /// The list of `value` followed by the elements of `other`, made as
    /// [`Self::cons_mut`] makes it.
    pub fn cons(value: T, other: Self) -> (r: Self)
        requires
            other.wf(),
        ensures
            r.wf(),
            r@.len() == other@.len() + 1,
            r@[0] == value,
            clones_of(other@, r@.skip(1)),
            other.head_slots() < other.head_size() ==> {
                &&& r.layout() == seq![
                    (other.head_size() as usize, (other.head_len() + 1) as usize),
                ] + other.layout().skip(1)
                &&& r.head_slots() == other.head_len() + 1
            },
            other.head_slots() >= other.head_size() ==> {
                &&& r.layout() == seq![(grown(other.head_size() as usize, G), 1usize)]
                    + other.layout()
                &&& r.head_slots() == 1
                &&& r@ == seq![value] + other@
            },
    {
        UnrolledCell::cons(value, other)
    }

    /// Takes the first element off the list and returns it, or returns
    /// nothing if the list is empty. A first bucket that no longer shows
    /// anything gives way to the next.
    pub fn pop_front(&mut self) -> (r: Option<T>)
        requires
            old(self).wf(),
        ensures
            final(self).wf(),
            match r {
                Some(head) => {
                    &&& old(self)@.len() > 0
                    &&& cloned(old(self)@[0], head)
                    &&& clones_of(old(self)@.skip(1), final(self)@)
                    &&& old(self)@.len() >= 2 ==> final(self).layout() == layout_skip(
                        old(self).layout(),
                        1,
                    )
                    &&& old(self)@.len() == 1 ==> final(self).layout() == seq![
                        (old(self).head_size() as usize, 0usize),
                    ]
                },
                None => old(self)@.len() == 0 && *final(self) == *old(self),
            },
    {
        proof {
            self.lemma_view_len();
        }
        if self.0.index == 0 {
            return None;
        }
        let ghost before = *self;
        let cell = RcPointer::make_mut(&mut self.0);
        let elements = RcPointer::make_mut(&mut cell.elements);
        let ghost copied = elements@;
        proof {
            lemma_cloned_vec(&*before.0.elements, &*elements);
        }
        elements.truncate(cell.index);
        let ret = elements.pop();
        cell.index = cell.index - 1;
        let ghost cursor = before.0.index as int;
        proof {
            lemma_shown_index(before.0.elements@, cursor, 0);
            lemma_shown_skip(copied, cursor, 1);
            lemma_shown_prefix(copied, cursor - 1, cursor - 1);
            assert(elements@ =~= copied.subrange(0, cursor - 1));
            lemma_clones_subrange(before.0.elements@, copied, 0, cursor);
            lemma_clones_reverse(
                before.0.elements@.subrange(0, cursor),
                copied.subrange(0, cursor),
            );
            assert(shown(elements@, cursor - 1) == shown(copied, cursor).skip(1));
            lemma_clones_subrange(before.0.live(), shown(copied, cursor), 1, cursor);
            assert(shown(copied, cursor).skip(1) =~= shown(copied, cursor).subrange(1, cursor));
            assert(before.0.live().skip(1) =~= before.0.live().subrange(1, cursor));
        }
        let mut next: Option<UnrolledList<T, N, G>> = None;
        if cell.index == 0 {
            next = cell.next.take();
        }
        proof {
            match before.0.next {
                Some(rest) => {
                    rest.lemma_view_len();
                    lemma_clones_refl(rest@);
                    lemma_clones_concat(
                        before.0.live().skip(1),
                        shown(copied, cursor).skip(1),
                        rest@,
                        rest@,
                    );
                    assert(before@.skip(1) =~= before.0.live().skip(1) + rest@);
                },
                None => {
                    assert(before@.skip(1) =~= before.0.live().skip(1));
                },
            }
        }
        proof {
            assert(before.layout().skip(1) =~= Self::layout_of(before.0.next));
            if cursor > 1 {
                assert(self.layout() =~= layout_skip(before.layout(), 1));
            }
        }
        match next {
            Some(rest) => {
                proof {
                    assert(shown(copied, cursor).skip(1) + rest@ =~= rest@);
                    rest.lemma_layout_skip_none();
                }
                *self = rest;
            },
            None => {},
        }
        ret
    }

    /// Steps the list to its tail in place and returns it, or empties the
    /// list and returns nothing if it had at most one element.
    pub fn cdr_mut(&mut self) -> (r: Option<&mut Self>)
        requires
            old(self).wf(),
        ensures
            match r {
                Some(rest) => {
                    &&& old(self)@.len() >= 2
                    &&& rest.wf()
                    &&& rest@ == old(self)@.skip(1)
                    &&& rest.layout() == layout_skip(old(self).layout(), 1)
                    &&& *final(self) == *final(rest)
                },
                None => {
                    &&& old(self)@.len() <= 1
                    &&& final(self).wf()
                    &&& final(self)@.len() == 0
                    &&& final(self).layout() == seq![(base_size(N), 0usize)]
                },
            },
    {
        proof {
            self.lemma_view_len();
        }
        if self.0.index > 1 {
            let ghost before = *self;
            let cell = RcPointer::make_mut(&mut self.0);
            cell.index = cell.index - 1;
            proof {
                lemma_shown_skip(before.0.elements@, before.0.index as int, 1);
                assert(self@ =~= before@.skip(1));
                assert(self.layout() =~= layout_skip(before.layout(), 1));
            }
            Some(self)
        } else {
            let next = match &self.0.next {
                Some(rest) => Some(rest.clone()),
                None => None,
            };
            match next {
                Some(rest) => {
                    proof {
                        rest.lemma_view_len();
                        assert(rest@ =~= self@.skip(1));
                        rest.lemma_layout_skip_none();
                        assert(self.layout().skip(1) =~= rest.layout());
                    }
                    *self = rest;
                    Some(self)
                },
                None => {
                    *self = Self::new();
                    None
                },
            }
        }
    }
}

impl<T: Clone, const N: usize, const G: usize> UnrolledList<T, N, G> {
    /// What a row of buckets shows when each is read for itself, first
    /// bucket first.
    pub closed spec fn lives(nodes: Seq<Self>) -> Seq<T>
        decreases nodes.len(),
    {
        if nodes.len() == 0 {
            Seq::empty()
        } else {
            Self::lives(nodes.drop_last()) + nodes.last().0.live()
        }
    }

    /// Each bucket of the row is in order by itself and shows something.
    pub closed spec fn linkable(nodes: Seq<Self>) -> bool {
        forall|i: int|
            0 <= i < nodes.len() ==> (#[trigger] nodes[i]).0.cell_wf() && nodes[i].0.index >= 1
    }

    /// An empty row shows nothing.
    pub proof fn lemma_lives_empty()
        ensures
            Self::lives(Seq::<Self>::empty()) == Seq::<T>::empty(),
    {
    }

    proof fn lemma_lives_push(nodes: Seq<Self>, node: Self)
        ensures
            Self::lives(nodes.push(node)) == Self::lives(nodes) + node.0.live(),
    {
        assert(nodes.push(node).drop_last() =~= nodes);
    }

    /// Chains the first buckets of `nodes` in their order, whatever they
    /// were linked to before.
    fn link(nodes: Vec<Self>) -> (r: Self)
        requires
            Self::linkable(nodes@),
        ensures
            r.wf(),
            r@ == Self::lives(nodes@),
            nodes@.len() > 0 ==> r.0.index >= 1 && r.layout() == Self::rows(nodes@),
            nodes@.len() == 0 ==> r.layout() == seq![(base_size(N), 0usize)],
    {
        let mut nodes = nodes;
        let mut acc: Option<Self> = None;
        let ghost all = nodes@;
        let ghost mut tail: Seq<T> = Seq::empty();
        while nodes.len() > 0
            invariant
                Self::linkable(nodes@),
                Self::lives(all) == Self::lives(nodes@) + tail,
                Self::rows(all) == Self::rows(nodes@) + Self::layout_of(acc),
                match acc {
                    Some(rest) => rest.wf() && rest.0.index >= 1 && rest@ == tail,
                    None => tail == Seq::<T>::empty() && nodes@ == all,
                },
            decreases nodes.len(),
        {
            let ghost row = nodes@;
            let mut node = nodes.pop().unwrap();
            let ghost before = node;
            assert(before == row[row.len() - 1]);
            assert(nodes@ =~= row.drop_last());
            let ghost linked = Self::layout_of(acc);
            let cell = RcPointer::make_mut(&mut node.0);
            cell.next = acc;
            proof {
                assert(Self::rows(row) =~= Self::rows(row.drop_last()).push(
                    (before.0.size, before.0.index),
                ));
                assert(Self::rows(row) + linked =~= Self::rows(nodes@) + node.layout());
                assert(Self::lives(row) == Self::lives(row.drop_last()) + before.0.live());
                assert((Self::lives(nodes@) + before.0.live()) + tail =~= Self::lives(nodes@) + (
                before.0.live() + tail));
                tail = before.0.live() + tail;
            }
            acc = Some(node);
        }
        proof {
            assert(Self::rows(nodes@) + Self::layout_of(acc) =~= Self::layout_of(acc));
        }
        match acc {
            Some(list) => list,
            None => Self::new(),
        }
    }

    /// The list without its first `len` elements, sharing the vectors of
    /// this one, or nothing if the list is shorter than `len`.
    pub fn tail(&self, len: usize) -> (r: Option<Self>)
        requires
            self.wf(),
        ensures
            match r {
                Some(rest) => {
                    &&& len <= self@.len()
                    &&& rest.wf()
                    &&& rest@ == self@.skip(len as int)
                    &&& len == 0 ==> rest == *self
                    &&& 0 < len < self@.len() ==> rest.layout() == layout_skip(
                        self.layout(),
                        len as nat,
                    )
                    &&& 0 < len == self@.len() ==> rest.layout() == seq![(base_size(N), 0usize)]
                },
                None => len > self@.len(),
            },
    {
        if len == 0 {
            proof {
                assert(self@.skip(0) =~= self@);
            }
            return Some(self.clone());
        }
        let mut cur = self;
        let mut left: usize = len;
        let ghost mut passed: Seq<T> = Seq::empty();
        loop
            invariant
                cur.wf(),
                self@ == passed + cur@,
                left + passed.len() == len,
                len > 0,
                layout_skip(self.layout(), len as nat) == layout_skip(cur.layout(), left as nat),
            decreases cur,
        {
            proof {
                cur.lemma_view_len();
            }
            if left < cur.0.index {
                let mut node = cur.clone();
                let cell = RcPointer::make_mut(&mut node.0);
                cell.index = cell.index - left;
                proof {
                    lemma_shown_skip(cur.0.elements@, cur.0.index as int, left as int);
                    assert(node@ =~= cur@.skip(left as int));
                    assert((passed + cur@).skip(len as int) =~= cur@.skip(left as int));
                    assert(node.layout() =~= layout_skip(cur.layout(), left as nat));
                }
                return Some(node);
            }
            left = left - cur.0.index;
            match &cur.0.next {
                Some(rest) => {
                    proof {
                        assert(passed + cur@ =~= (passed + cur.0.live()) + rest@);
                        passed = passed + cur.0.live();
                        assert(cur.layout().skip(1) =~= rest.layout());
                    }
                    cur = rest;
                },
                None => {
                    if left == 0 {
                        proof {
                            assert(self@.skip(len as int) =~= Seq::<T>::empty());
                        }
                        return Some(Self::new());
                    }
                    return None;
                },
            }
        }
    }

    /// A list of the first `count` elements, or of all of them if the list
    /// is shorter. Whole buckets share their vectors with this list; the
    /// bucket that is cut gets a vector of its own.
    pub fn take(&self, count: usize) -> (r: Self)
        requires
            self.wf(),
        ensures
            r.wf(),
            count >= self@.len() ==> clones_of(self@, r@),
            0 < count && count >= self@.len() ==> r.layout() == self.layout(),
            count < self@.len() ==> clones_of(self@.take(count as int), r@),
            0 < count < self@.len() ==> r.layout() == layout_take(self.layout(), count as nat),
            count == 0 ==> r.layout() == seq![(base_size(N), 0usize)],
    {
        proof {
            self.lemma_view_len();
        }
        if count == 0 {
            proof {
                assert(self@.take(0) =~= Seq::<T>::empty());
            }
            return Self::new();
        }
        if count >= self.0.index && self.0.next.is_none() {
            return self.clone();
        }
        proof {
            Self::lemma_rows_empty();
        }
        let mut nodes: Vec<Self> = Vec::new();
        let mut cur = self;
        let mut left: usize = count;
        let ghost mut passed: Seq<T> = Seq::empty();
        loop
            invariant
                cur.wf(),
                cur.0.index >= 1,
                self@ == passed + cur@,
                left + passed.len() == count,
                left >= 1,
                Self::linkable(nodes@),
                clones_of(passed, Self::lives(nodes@)),
                self.layout() == Self::rows(nodes@) + cur.layout(),
                layout_take(self.layout(), count as nat) == Self::rows(nodes@) + layout_take(
                    cur.layout(),
                    left as nat,
                ),
            decreases cur,
        {
            proof {
                cur.lemma_view_len();
            }
            if left < cur.0.index {
                let mut node = cur.clone();
                let cell = RcPointer::make_mut(&mut node.0);
                cell.next = None;
                let elements = RcPointer::make_mut(&mut cell.elements);
                let ghost copied = elements@;
                proof {
                    lemma_cloned_vec(&*cur.0.elements, &*elements);
                }
                elements.truncate(cell.index);
                let kept = elements.split_off(cell.index - left);
                *elements = kept;
                cell.index = left;
                proof {
                    let cursor = cur.0.index as int;
                    assert(node.0.elements@ =~= copied.subrange(cursor - left, cursor));
                    lemma_shown_take(copied, cursor, left as int);
                    lemma_clones_subrange(cur.0.elements@, copied, 0, cursor);
                    lemma_clones_reverse(
                        cur.0.elements@.subrange(0, cursor),
                        copied.subrange(0, cursor),
                    );
                    lemma_clones_subrange(cur.0.live(), shown(copied, cursor), 0, left as int);
                    Self::lemma_lives_push(nodes@, node);
                    lemma_clones_concat(
                        passed,
                        Self::lives(nodes@),
                        cur.0.live().take(left as int),
                        node.0.live(),
                    );
                    assert(self@.take(count as int) =~= passed + cur.0.live().take(left as int));
                    assert(Self::rows(nodes@.push(node)) =~= Self::rows(nodes@).push(
                        (cur.0.size, left),
                    ));
                    assert(Self::rows(nodes@) + layout_take(cur.layout(), left as nat)
                        =~= Self::rows(nodes@).push((cur.0.size, left)));
                }
                nodes.push(node);
                return Self::link(nodes);
            }
            let ghost laid = Self::rows(nodes@);
            let ghost budget = left;
            left = left - cur.0.index;
            proof {
                let bucket = (cur.0.size, cur.0.index);
                assert(Self::rows(nodes@.push(*cur)) =~= laid.push(bucket));
                assert(cur.layout().skip(1) =~= Self::layout_of(cur.0.next));
                assert(laid + cur.layout() =~= laid.push(bucket) + Self::layout_of(cur.0.next));
                assert(layout_take(cur.layout(), budget as nat) == seq![bucket] + layout_take(
                    cur.layout().skip(1),
                    left as nat,
                ));
                assert(laid + (seq![bucket] + layout_take(cur.layout().skip(1), left as nat))
                    =~= laid.push(bucket) + layout_take(cur.layout().skip(1), left as nat));
                Self::lemma_lives_push(nodes@, *cur);
                lemma_clones_refl(cur.0.live());
                lemma_clones_concat(passed, Self::lives(nodes@), cur.0.live(), cur.0.live());
            }
            nodes.push(cur.clone());
            match &cur.0.next {
                Some(rest) => {
                    proof {
                        rest.lemma_view_len();
                        assert(passed + cur@ =~= (passed + cur.0.live()) + rest@);
                        passed = passed + cur.0.live();
                    }
                    if left == 0 {
                        proof {
                            assert(self@.take(count as int) =~= passed);
                            assert(Self::rows(nodes@) + Seq::<(usize, usize)>::empty()
                                =~= Self::rows(nodes@));
                        }
                        return Self::link(nodes);
                    }
                    cur = rest;
                },
                None => {
                    proof {
                        assert(Self::rows(nodes@) + Seq::<(usize, usize)>::empty() =~= Self::rows(
                            nodes@,
                        ));
                    }
                    return Self::link(nodes);
                },
            }
        }
    }

    /// The list with its elements in the opposite order. Each bucket is
    /// rid of the slots that no longer show, turned around, and linked in
    /// front of the bucket that came before it.
    pub fn reverse(self) -> (r: Self)
        requires
            self.wf(),
        ensures
            r.wf(),
            clones_of(self@.reverse(), r@),
            r.bucket_count() == self.bucket_count(),
            r.layout() == self.layout().reverse(),
    {
        proof {
            self.lemma_view_len();
        }
        if self.0.index == 0 {
            proof {
                assert(self@.reverse() =~= self@);
                assert(self.layout().reverse() =~= self.layout());
            }
            return self;
        }
        let ghost whole = self;
        let mut cur: Option<Self> = Some(self);
        let mut acc: Option<Self> = None;
        let ghost mut passed: Seq<T> = Seq::empty();
        let ghost mut turned: Seq<T> = Seq::empty();
        let ghost mut laid: Seq<(usize, usize)> = Seq::empty();
        while cur.is_some()
            invariant
                whole.layout() == laid + Self::layout_of(cur),
                Self::layout_of(acc) == laid.reverse(),
                match cur {
                    Some(list) => list.wf() && whole@ == passed + list@ && list.0.index >= 1,
                    None => whole@ == passed && acc is Some,
                },
                match acc {
                    Some(done) => done.wf() && done.0.index >= 1 && done@ == turned,
                    None => turned == Seq::<T>::empty() && passed == Seq::<T>::empty(),
                },
                clones_of(passed.reverse(), turned),
                Self::count_of(cur) + Self::count_of(acc) == whole.bucket_count(),
            decreases cur,
        {
            let mut node = cur.unwrap();
            let ghost before = node;
            proof {
                before.lemma_view_len();
            }
            let cell = RcPointer::make_mut(&mut node.0);
            let next = cell.next.take();
            let elements = RcPointer::make_mut(&mut cell.elements);
            let ghost copied = elements@;
            proof {
                lemma_cloned_vec(&*before.0.elements, &*elements);
            }
            elements.truncate(cell.index);
            reverse_slots(elements);
            cell.next = acc;
            proof {
                let cursor = before.0.index as int;
                lemma_shown_reverse(copied.subrange(0, cursor));
                lemma_shown_prefix(copied, cursor, cursor);
                lemma_clones_subrange(before.0.elements@, copied, 0, cursor);
                lemma_clones_reverse(
                    before.0.elements@.subrange(0, cursor),
                    copied.subrange(0, cursor),
                );
                lemma_clones_reverse(before.0.live(), shown(copied, cursor));
                assert(node.0.elements@ == copied.subrange(0, cursor).reverse());
                assert(node.0.index == cursor);
                assert(node.0.live() == shown(copied, cursor).reverse());
                assert(node@ == node.0.live() + turned);
                lemma_reverse_concat(passed, before.0.live());
                lemma_clones_concat(
                    before.0.live().reverse(),
                    node.0.live(),
                    passed.reverse(),
                    turned,
                );
                match before.0.next {
                    Some(rest) => {
                        rest.lemma_view_len();
                        assert(passed + before@ =~= (passed + before.0.live()) + rest@);
                    },
                    None => {
                        assert(passed + before@ =~= passed + before.0.live());
                    },
                }
                assert(node.wf());
                let bucket = (before.0.size, before.0.index);
                assert(laid + before.layout() =~= laid.push(bucket) + Self::layout_of(next));
                assert(node.layout() =~= laid.push(bucket).reverse());
                laid = laid.push(bucket);
                passed = passed + before.0.live();
                turned = node.0.live() + turned;
            }
            acc = Some(node);
            cur = next;
        }
        proof {
            assert(laid + Self::layout_of(cur) =~= laid);
        }
        match acc {
            Some(list) => list,
            None => Self::new(),
        }
    }

    spec fn count_of(list: Option<Self>) -> nat {
        match list {
            Some(l) => l.bucket_count(),
            None => 0,
        }
    }
}

/// Walks the bucket sizes of a list of a given length, from the last bucket
/// to the first.
pub struct ExponentialChunks<const N: usize, const G: usize> {
    size: usize,
    length: usize,
}

impl<const N: usize, const G: usize> ExponentialChunks<N, G> {
    /// The buckets still to come, as `(capacity, elements)` pairs.
    pub closed spec fn plan(&self) -> Seq<(usize, usize)> {
        bucket_plan(self.size, G, self.length as nat)
    }

    /// The number of elements still to place.
    pub closed spec fn remaining(&self) -> nat {
        self.length as nat
    }

    /// The next bucket has room for an element.
    pub closed spec fn wf(&self) -> bool {
        self.size >= 1
    }

    /// The sizes for `length` elements, the last bucket having capacity
    /// `size`.
    pub fn new(length: usize, size: usize) -> (r: Self)
        requires
            size >= 1,
        ensures
            r.wf(),
            r.plan() == bucket_plan(size, G, length as nat),
            r.remaining() == length,
    {
        ExponentialChunks { size, length }
    }

    /// The capacity of the next bucket and the number of elements it takes,
    /// or nothing when every element is placed.
    pub fn next(&mut self) -> (r: Option<(usize, usize)>)
        requires
            old(self).wf(),
        ensures
            final(self).wf(),
            match r {
                Some((size, count)) => {
                    &&& old(self).plan().len() > 0
                    &&& old(self).plan()[0] == (size, count)
                    &&& final(self).plan() == old(self).plan().skip(1)
                    &&& 1 <= count <= size
                    &&& final(self).remaining() + count == old(self).remaining()
                },
                None => {
                    &&& old(self).remaining() == 0
                    &&& old(self).plan().len() == 0
                    &&& *final(self) == *old(self)
                },
            },
    {
        if self.length == 0 {
            return None;
        }
        let size = self.size;
        let count = if self.length <= size {
            self.length
        } else {
            size
        };
        let ghost before = *self;
        self.length = self.length - count;
        if self.length > 0 {
            self.size = match size.checked_mul(if G == 0 {
                1
            } else {
                G
            }) {
                Some(product) => product,
                None => usize::MAX,
            };
        }
        proof {
            lemma_grown_bounds(size, G);
            if before.length <= size {
                assert(before.plan().skip(1) =~= Seq::<(usize, usize)>::empty());
            } else {
                assert(before.plan().skip(1) =~= bucket_plan(
                    grown(size, G),
                    G,
                    (before.length - size) as nat,
                ));
            }
        }
        Some((size, count))
    }
}

impl<T: Clone, const N: usize, const G: usize> UnrolledList<T, N, G> {
    /// The list of the elements of `vec` in their order, in buckets laid
    /// out as [`bucket_plan`] says.
    pub fn from_vec(vec: Vec<T>) -> (r: Self)
        ensures
            r.wf(),
            r@ == vec@,
            vec@.len() > 0 ==> r.layout() == bucket_plan(
                base_size(N),
                G,
                vec@.len(),
            ).reverse(),
            vec@.len() == 0 ==> r.layout() == seq![(base_size(N), 0usize)],
    {
        let ghost whole = vec@;
        let mut rest = vec;
        let mut chunks = ExponentialChunks::<N, G>::new(
            rest.len(),
            UnrolledCell::<T, N, G>::base_size(),
        );
        let mut acc: Option<Self> = None;
        let ghost mut done: Seq<(usize, usize)> = Seq::empty();
        loop
            invariant
                rest@ == whole.take(rest@.len() as int),
                rest@.len() <= whole.len(),
                chunks.wf(),
                chunks.remaining() == rest@.len(),
                done + chunks.plan() == bucket_plan(base_size(N), G, whole.len()),
                match acc {
                    Some(list) => {
                        &&& list.wf()
                        &&& list.0.index >= 1
                        &&& list@ == whole.skip(rest@.len() as int)
                        &&& list.layout() == done.reverse()
                    },
                    None => rest@.len() == whole.len() && done.len() == 0,
                },
            ensures
                rest@.len() == 0,
                chunks.plan().len() == 0,
            decreases rest@.len(),
        {
            let ghost plan = chunks.plan();
            match chunks.next() {
                Some((size, count)) => {
                    let ghost kept = rest@;
                    let mut slots = rest.split_off(rest.len() - count);
                    let ghost chunk = slots@;
                    reverse_slots(&mut slots);
                    let node = UnrolledList(
                        RcPointer::new(
                            UnrolledCell {
                                index: count,
                                elements: RcPointer::new(slots),
                                next: acc,
                                size,
                            },
                        ),
                    );
                    proof {
                        assert(node.0.live() =~= chunk);
                        assert(chunk == whole.take(kept.len() as int).subrange(
                            kept.len() - count,
                            kept.len() as int,
                        ));
                        assert(node@ =~= whole.skip(rest@.len() as int));
                        assert(rest@ =~= whole.take(rest@.len() as int));
                        assert(done.push((size, count)) + chunks.plan() =~= done + plan);
                        assert(done.push((size, count)).reverse() =~= seq![(size, count)]
                            + done.reverse());
                        done = done.push((size, count));
                    }
                    acc = Some(node);
                },
                None => {
                    break ;
                },
            }
        }
        match acc {
            Some(list) => {
                proof {
                    assert(done + chunks.plan() =~= done);
                    assert(whole.skip(0) =~= whole);
                }
                list
            },
            None => {
                let list = Self::new();
                proof {
                    assert(whole =~= Seq::<T>::empty());
                }
                list
            },
        }
    }
}

/// The bucket at the front of a chain under construction: one taken as it
/// was, or the slots of several merged into one.
enum Front<T: Clone, const N: usize, const G: usize> {
    Whole(UnrolledList<T, N, G>),
    Merged(Vec<T>, usize),
}

impl<T: Clone, const N: usize, const G: usize> Front<T, N, G> {
    spec fn live(&self) -> Seq<T> {
        match self {
            Front::Whole(node) => node.0.live(),
            Front::Merged(slots, _) => shown(slots@, slots@.len() as int),
        }
    }

    spec fn wf(&self) -> bool {
        match self {
            Front::Whole(node) => node.0.cell_wf() && node.0.index >= 1,
            Front::Merged(slots, size) => 1 <= slots@.len() <= *size,
        }
    }

    spec fn spec_size(&self) -> usize {
        match self {
            Front::Whole(node) => node.0.size,
            Front::Merged(_, size) => *size,
        }
    }

    spec fn spec_len(&self) -> usize {
        match self {
            Front::Whole(node) => node.0.index,
            Front::Merged(slots, _) => slots@.len() as usize,
        }
    }

    fn len(&self) -> (r: usize)
        requires
            self.wf(),
        ensures
            r == self.live().len(),
            r == self.spec_len(),
            1 <= r <= self.spec_size(),
    {
        match self {
            Front::Whole(node) => node.0.index,
            Front::Merged(slots, _) => slots.len(),
        }
    }

    fn size(&self) -> (r: usize)
        ensures
            r == self.spec_size(),
    {
        match self {
            Front::Whole(node) => node.0.size,
            Front::Merged(_, size) => *size,
        }
    }

    /// The slots that show, in a vector of their own.
    fn into_slots(self) -> (r: Vec<T>)
        requires
            self.wf(),
        ensures
            clones_of(self.live(), shown(r@, r@.len() as int)),
            self is Merged ==> shown(r@, r@.len() as int) == self.live(),
    {
        match self {
            Front::Whole(node) => node.into_slots(),
            Front::Merged(slots, _) => {
                proof {
                    lemma_clones_refl(shown(slots@, slots@.len() as int));
                }
                slots
            },
        }
    }

    /// The bucket as a list, linked in front of `rest`.
    fn finish(self, rest: Option<UnrolledList<T, N, G>>) -> (r: UnrolledList<T, N, G>)
        requires
            self.wf(),
            rest matches Some(list) ==> list.wf() && list.0.index >= 1,
        ensures
            r.wf(),
            r.0.index >= 1,
            r@ == self.live() + UnrolledList::view_of(rest),
            r.layout() == seq![(self.spec_size(), self.spec_len())] + UnrolledList::layout_of(rest),
    {
        match self {
            Front::Whole(node) => {
                let mut node = node;
                let cell = RcPointer::make_mut(&mut node.0);
                cell.next = rest;
                proof {
                    assert(node@ =~= self.live() + UnrolledList::view_of(rest));
                }
                node
            },
            Front::Merged(slots, size) => {
                let node = UnrolledList(
                    RcPointer::new(
                        UnrolledCell {
                            index: slots.len(),
                            elements: RcPointer::new(slots),
                            next: rest,
                            size,
                        },
                    ),
                );
                proof {
                    assert(node@ =~= self.live() + UnrolledList::view_of(rest));
                }
                node
            },
        }
    }
}

impl<T: Clone, const N: usize, const G: usize> UnrolledList<T, N, G> {
    spec fn layout_of(list: Option<Self>) -> Seq<(usize, usize)> {
        match list {
            Some(l) => l.layout(),
            None => Seq::empty(),
        }
    }

    spec fn front_layout(front: Option<Front<T, N, G>>, behind: Option<Self>) -> Seq<
        (usize, usize),
    > {
        match front {
            Some(bucket) => seq![(bucket.spec_size(), bucket.spec_len())] + Self::layout_of(
                behind,
            ),
            None => Seq::empty(),
        }
    }

    /// The capacity and the number of shown elements of the first bucket
    /// of each list of a row.
    pub closed spec fn rows(nodes: Seq<Self>) -> Seq<(usize, usize)> {
        Seq::new(nodes.len(), |i: int| (nodes[i].0.size, nodes[i].0.index))
    }

    /// An empty row has no bucket.
    pub proof fn lemma_rows_empty()
        ensures
            Self::rows(Seq::<Self>::empty()) == Seq::<(usize, usize)>::empty(),
    {
        assert(Self::rows(Seq::<Self>::empty()) =~= Seq::<(usize, usize)>::empty());
    }

    spec fn rest_view(&self) -> Seq<T> {
        Self::view_of(self.0.next)
    }

    spec fn view_of(list: Option<Self>) -> Seq<T> {
        match list {
            Some(l) => l@,
            None => Seq::empty(),
        }
    }

    /// Every list of the row is well formed.
    pub open spec fn all_wf(nodes: Seq<Self>) -> bool {
        forall|i: int| 0 <= i < nodes.len() ==> (#[trigger] nodes[i]).wf()
    }

    /// The slots the first bucket shows, in a vector of their own.
    fn into_slots(self) -> (r: Vec<T>)
        requires
            self.0.cell_wf(),
        ensures
            r@.len() == self.0.index,
            clones_of(self.0.live(), shown(r@, r@.len() as int)),
    {
        let mut node = self;
        let cell = RcPointer::make_mut(&mut node.0);
        let elements = RcPointer::make_mut(&mut cell.elements);
        let ghost copied = elements@;
        proof {
            lemma_cloned_vec(&*self.0.elements, &*elements);
        }
        elements.truncate(cell.index);
        let mut slots: Vec<T> = Vec::new();
        core::mem::swap(elements, &mut slots);
        proof {
            let cursor = self.0.index as int;
            lemma_shown_prefix(copied, cursor, cursor);
            lemma_clones_subrange(self.0.elements@, copied, 0, cursor);
            lemma_clones_reverse(
                self.0.elements@.subrange(0, cursor),
                copied.subrange(0, cursor),
            );
        }
        slots
    }

    /// Puts the buckets of `list`, each unlinked from the next, behind
    /// those in `into`.
    pub(crate) fn collect_nodes(list: Self, into: &mut Vec<Self>)
        requires
            list.wf(),
            Self::all_wf(old(into)@),
        ensures
            Self::all_wf(final(into)@),
            Self::lives(final(into)@) == Self::lives(old(into)@) + list@,
            Self::rows(final(into)@) == Self::rows(old(into)@) + list.layout(),
    {
        let ghost start = Self::lives(into@);
        let ghost first = Self::rows(into@);
        let ghost mut passed: Seq<T> = Seq::empty();
        let ghost mut walked: Seq<(usize, usize)> = Seq::empty();
        let mut cur: Option<Self> = Some(list);
        while cur.is_some()
            invariant
                Self::all_wf(into@),
                Self::lives(into@) == start + passed,
                Self::rows(into@) == first + walked,
                match cur {
                    Some(rest) => rest.wf() && list@ == passed + rest@ && list.layout() == walked
                        + rest.layout(),
                    None => list@ == passed && list.layout() == walked,
                },
            decreases cur,
        {
            let mut node = cur.unwrap();
            let ghost before = node;
            let ghost row = into@;
            let cell = RcPointer::make_mut(&mut node.0);
            let next = cell.next.take();
            proof {
                let bucket = (before.0.size, before.0.index);
                assert(Self::rows(row.push(node)) =~= Self::rows(row).push(bucket));
                assert((first + walked).push(bucket) =~= first + walked.push(bucket));
                match before.0.next {
                    Some(rest) => {
                        assert(walked + before.layout() =~= walked.push(bucket) + rest.layout());
                    },
                    None => {
                        assert(walked + before.layout() =~= walked.push(bucket));
                    },
                }
                walked = walked.push(bucket);
                Self::lemma_lives_push(into@, node);
                assert((start + passed) + node.0.live() =~= start + (passed + node.0.live()));
                match before.0.next {
                    Some(rest) => {
                        assert(passed + before@ =~= (passed + before.0.live()) + rest@);
                    },
                    None => {
                        assert(passed + before@ =~= passed + before.0.live());
                    },
                }
                passed = passed + before.0.live();
                assert(node.wf());
            }
            into.push(node);
            cur = next;
        }
    }

    /// Chains the first buckets of `nodes` in their order, whatever they
    /// were linked to before. Going from the last bucket to the first, a
    /// bucket is merged with the one behind it where what both show fits
    /// the capacity of the one behind; the merged bucket has the larger of
    /// the two capacities. Buckets that show nothing are left out.
    pub fn from_iter(nodes: Vec<Self>) -> (r: Self)
        requires
            Self::all_wf(nodes@),
        ensures
            r.wf(),
            clones_of(Self::lives(nodes@), r@),
            coalesced(Self::rows(nodes@)).len() > 0 ==> r.layout() == coalesced(Self::rows(nodes@)),
            coalesced(Self::rows(nodes@)).len() == 0 ==> r.layout() == seq![
                (base_size(N), 0usize),
            ],
    {
        let mut nodes = nodes;
        let ghost all = nodes@;
        let ghost rows = Self::rows(nodes@);
        proof {
            assert(rows.skip(rows.len() as int) =~= Seq::<(usize, usize)>::empty());
        }
        let mut acc: Option<Self> = None;
        let mut front: Option<Front<T, N, G>> = None;
        let ghost mut ahead: Seq<T> = Seq::empty();
        let ghost mut behind: Seq<T> = Seq::empty();
        while nodes.len() > 0
            invariant
                Self::all_wf(nodes@),
                Self::lives(all) == Self::lives(nodes@) + (ahead + behind),
                acc matches Some(list) ==> list.wf() && list.0.index >= 1,
                clones_of(behind, Self::view_of(acc)),
                nodes@.len() <= all.len(),
                nodes@ == all.take(nodes@.len() as int),
                rows == Self::rows(all),
                Self::front_layout(front, acc) == coalesced(rows.skip(nodes@.len() as int)),
                match front {
                    Some(bucket) => {
                        &&& bucket.wf()
                        &&& clones_of(ahead, bucket.live())
                        &&& bucket is Whole ==> ahead == bucket.live()
                    },
                    None => acc is None && ahead == Seq::<T>::empty(),
                },
            decreases nodes.len(),
        {
            let ghost row = nodes@;
            let ghost laid = Self::front_layout(front, acc);
            let left = nodes.pop().unwrap();
            proof {
                assert(left == row[row.len() - 1]);
                assert(nodes@ =~= row.drop_last());
                assert(nodes@ =~= all.take(nodes@.len() as int));
                assert(left.wf());
                left.lemma_view_len();
                assert(Self::lives(row) == Self::lives(nodes@) + left.0.live());
                assert((Self::lives(nodes@) + left.0.live()) + (ahead + behind) =~= Self::lives(
                    nodes@,
                ) + ((left.0.live() + ahead) + behind));
                let k = nodes@.len() as int;
                assert(rows.skip(k)[0] == (left.0.size, left.0.index));
                assert(rows.skip(k).skip(1) =~= rows.skip(k + 1));
                assert(coalesced(rows.skip(k)) == merge_front(
                    (left.0.size, left.0.index),
                    laid,
                ));
            }
            if left.0.index == 0 {
                proof {
                    assert(left.0.live() + ahead =~= ahead);
                }
                continue ;
            }
            match front {
                None => {
                    proof {
                        lemma_clones_refl(left.0.live());
                        assert(left.0.live() + ahead =~= left.0.live());
                        ahead = left.0.live();
                    }
                    front = Some(Front::Whole(left));
                },
                Some(bucket) => {
                    let room = bucket.size() - bucket.len();
                    if left.0.index <= room {
                        let size = if left.0.size > bucket.size() {
                            left.0.size
                        } else {
                            bucket.size()
                        };
                        let mut slots = bucket.into_slots();
                        let mut above = left.into_slots();
                        let ghost below = slots@;
                        let ghost top = above@;
                        slots.append(&mut above);
                        proof {
                            assert(laid.skip(1) =~= Self::layout_of(acc));
                            lemma_shown_concat(below, top);
                            assert(clones_of(ahead, shown(below, below.len() as int)));
                            lemma_clones_concat(
                                left.0.live(),
                                shown(top, top.len() as int),
                                ahead,
                                shown(below, below.len() as int),
                            );
                            ahead = left.0.live() + ahead;
                        }
                        front = Some(Front::Merged(slots, size));
                    } else {
                        let linked = bucket.finish(acc);
                        proof {
                            assert(linked.layout() == laid);
                            lemma_clones_concat(
                                ahead,
                                bucket.live(),
                                behind,
                                Self::view_of(acc),
                            );
                            lemma_clones_refl(left.0.live());
                            assert((left.0.live() + ahead) + behind =~= left.0.live() + (ahead
                                + behind));
                            behind = ahead + behind;
                            ahead = left.0.live();
                        }
                        acc = Some(linked);
                        front = Some(Front::Whole(left));
                    }
                },
            }
        }
        proof {
            assert(Self::lives(nodes@) + (ahead + behind) =~= ahead + behind);
            assert(rows.skip(0) =~= rows);
        }
        match front {
            Some(bucket) => {
                proof {
                    lemma_clones_concat(ahead, bucket.live(), behind, Self::view_of(acc));
                }
                bucket.finish(acc)
            },
            None => {
                proof {
                    assert(ahead + behind =~= Seq::<T>::empty());
                }
                Self::new()
            },
        }
    }

    proof fn lemma_coalesced_nonempty(front: Seq<(usize, usize)>, other: Self)
        requires
            other.wf(),
            other.0.index >= 1,
        ensures
            coalesced(front + other.layout()).len() > 0,
        decreases front.len(),
    {
        let rows = front + other.layout();
        if front.len() == 0 {
            assert(rows =~= other.layout());
            assert(rows[0] == (other.0.size, other.0.index));
        } else {
            assert(rows.skip(1) =~= front.skip(1) + other.layout());
            Self::lemma_coalesced_nonempty(front.skip(1), other);
        }
    }

    /// The elements of this list followed by those of `other`. With an
    /// empty `other` this list is returned as it is.
    pub fn append(self, other: Self) -> (r: Self)
        requires
            self.wf(),
            other.wf(),
        ensures
            r.wf(),
            clones_of(self@ + other@, r@),
            other@.len() == 0 ==> r == self,
            other@.len() > 0 ==> r.layout() == coalesced(self.layout() + other.layout()),
    {
        proof {
            other.lemma_view_len();
        }
        if other.0.index == 0 {
            proof {
                assert(self@ + other@ =~= self@);
                lemma_clones_refl(self@);
            }
            return self;
        }
        let mut nodes: Vec<Self> = Vec::new();
        proof {
            assert(Self::lives(nodes@) =~= Seq::<T>::empty());
            assert(nodes@ =~= Seq::<Self>::empty());
            Self::lemma_rows_empty();
        }
        Self::collect_nodes(self, &mut nodes);
        Self::collect_nodes(other, &mut nodes);
        proof {
            assert((Seq::<T>::empty() + self@) + other@ =~= self@ + other@);
            assert((Seq::<(usize, usize)>::empty() + self.layout()) + other.layout()
                =~= self.layout() + other.layout());
            Self::lemma_coalesced_nonempty(self.layout(), other);
        }
        Self::from_iter(nodes)
    }

    /// Puts the elements of `other` behind those of this list.
    pub fn append_mut(&mut self, other: Self)
        requires
            old(self).wf(),
            other.wf(),
        ensures
            final(self).wf(),
            clones_of(old(self)@ + other@, final(self)@),
            other@.len() == 0 ==> *final(self) == *old(self),
            other@.len() > 0 ==> final(self).layout() == coalesced(
                old(self).layout() + other.layout(),
            ),
    {
        proof {
            other.lemma_view_len();
        }
        if other.0.index == 0 {
            proof {
                assert(self@ + other@ =~= self@);
                lemma_clones_refl(self@);
            }
            return ;
        }
        let mut list = Self::new();
        core::mem::swap(self, &mut list);
        list = list.append(other);
        core::mem::swap(self, &mut list);
    }

    /// Puts the elements of `items`, in their order, behind those of this
    /// list.
    pub fn extend(&mut self, items: Vec<T>)
        requires
            old(self).wf(),
        ensures
            final(self).wf(),
            clones_of(old(self)@ + items@, final(self)@),
            items@.len() == 0 ==> *final(self) == *old(self),
            items@.len() > 0 ==> final(self).layout() == coalesced(
                old(self).layout() + bucket_plan(base_size(N), G, items@.len()).reverse(),
            ),
    {
        self.append_mut(Self::from_vec(items))
    }

    /// Puts `value` behind the last element.
    pub fn push_back(&mut self, value: T)
        requires
            old(self).wf(),
        ensures
            final(self).wf(),
            clones_of(old(self)@.push(value), final(self)@),
            final(self).layout() == coalesced(old(self).layout().push((base_size(N), 1usize))),
    {
        let mut items: Vec<T> = Vec::new();
        items.push(value);
        proof {
            assert(self@ + items@ =~= self@.push(value));
            assert(bucket_plan(base_size(N), G, 1).reverse() =~= seq![(base_size(N), 1usize)]);
            assert(self.layout() + seq![(base_size(N), 1usize)] =~= self.layout().push(
                (base_size(N), 1usize),
            ));
        }
        self.extend(items)
    }
}

/// A cursor over the elements of a borrowed list, head first.
pub struct IterWrapper<'a, T: Clone, const N: usize, const G: usize> {
    node: Option<&'a UnrolledList<T, N, G>>,
    left: usize,
}

impl<'a, T: Clone, const N: usize, const G: usize> IterWrapper<'a, T, N, G> {
    /// The elements still to come.
    pub closed spec fn remaining(&self) -> Seq<T> {
        match self.node {
            Some(list) => shown(list.0.elements@, self.left as int) + UnrolledList::raw_view_of(
                list.0.next,
            ),
            None => Seq::empty(),
        }
    }

    /// The cursor stands within the vector of its bucket.
    pub closed spec fn wf(&self) -> bool {
        self.node matches Some(list) ==> self.left <= list.0.elements@.len()
    }

    /// The next element, or nothing when all were given.
    pub fn next(&mut self) -> (r: Option<&'a T>)
        requires
            old(self).wf(),
        ensures
            final(self).wf(),
            match r {
                Some(item) => {
                    &&& old(self).remaining().len() > 0
                    &&& *item == old(self).remaining()[0]
                    &&& final(self).remaining() == old(self).remaining().skip(1)
                },
                None => old(self).remaining().len() == 0 && final(self).remaining().len() == 0,
            },
    {
        loop
            invariant
                self.wf(),
                self.remaining() == old(self).remaining(),
            decreases self.node,
        {
            let list = match self.node {
                Some(list) => list,
                None => {
                    return None;
                },
            };
            if self.left > 0 {
                let ghost before = self.remaining();
                let left: usize = self.left - 1;
                self.left = left;
                proof {
                    lemma_shown_index(list.0.elements@, left + 1, 0);
                    lemma_shown_skip(list.0.elements@, left + 1, 1);
                    assert(self.remaining() =~= before.skip(1));
                }
                return Some(&list.0.elements[left]);
            }
            proof {
                assert(shown(list.0.elements@, 0) =~= Seq::<T>::empty());
            }
            match &list.0.next {
                Some(rest) => {
                    proof {
                        assert(Seq::<T>::empty() + rest.raw_view() =~= rest.raw_view());
                    }
                    self.node = Some(rest);
                    self.left = rest.raw_len();
                },
                None => {
                    proof {
                        assert(self.remaining() =~= Seq::<T>::empty());
                    }
                    self.node = None;
                    return None;
                },
            }
        }
    }

    /// The number of elements still to come from the bucket the cursor
    /// stands in.
    pub closed spec fn in_bucket(&self) -> nat {
        match self.node {
            Some(_) => self.left as nat,
            None => 0,
        }
    }

    /// A number of elements that are still to come for certain: those of
    /// the bucket the cursor stands in.
    pub fn size_hint(&self) -> (r: usize)
        requires
            self.wf(),
        ensures
            r == self.in_bucket(),
            r <= self.remaining().len(),
    {
        match self.node {
            Some(_) => self.left,
            None => 0,
        }
    }
}

impl<T: Clone, const N: usize, const G: usize> UnrolledList<T, N, G> {
    /// The elements of the list, head first, read with every cursor held
    /// within its vector. It is the view of a well-formed list.
    pub closed spec fn raw_view(&self) -> Seq<T>
        decreases self,
    {
        let cursor = if self.0.index <= self.0.elements@.len() {
            self.0.index as int
        } else {
            self.0.elements@.len() as int
        };
        match self.0.next {
            Some(rest) => shown(self.0.elements@, cursor) + rest.raw_view(),
            None => shown(self.0.elements@, cursor),
        }
    }

    spec fn raw_view_of(list: Option<Self>) -> Seq<T> {
        match list {
            Some(l) => l.raw_view(),
            None => Seq::empty(),
        }
    }

    /// Read with the cursors held within their vectors, a well-formed list
    /// shows its view.
    pub proof fn lemma_raw_view(&self)
        requires
            self.wf(),
        ensures
            self.raw_view() == self@,
        decreases self,
    {
        match self.0.next {
            Some(rest) => {
                rest.lemma_raw_view();
            },
            None => {},
        }
    }

    fn raw_len(&self) -> (r: usize)
        ensures
            r <= self.0.elements@.len(),
            self.raw_view() == shown(self.0.elements@, r as int) + Self::raw_view_of(
                self.0.next,
            ),
    {
        proof {
            assert(Self::raw_view_of(self.0.next) =~= Seq::<T>::empty() + Self::raw_view_of(
                self.0.next,
            ));
            let cursor = if self.0.index <= self.0.elements@.len() {
                self.0.index as int
            } else {
                self.0.elements@.len() as int
            };
            assert(shown(self.0.elements@, cursor) =~= shown(self.0.elements@, cursor)
                + Seq::<T>::empty());
        }
        if self.0.index <= self.0.elements.len() {
            self.0.index
        } else {
            self.0.elements.len()
        }
    }
}

/// A cursor that takes a list apart and gives its elements by value, head
/// first. A bucket whose vector something else still holds is copied.
pub struct ConsumingWrapper<T: Clone, const N: usize, const G: usize> {
    cur: Option<UnrolledList<T, N, G>>,
    slots: Vec<T>,
    ahead: Ghost<Seq<T>>,
}

impl<T: Clone, const N: usize, const G: usize> ConsumingWrapper<T, N, G> {
    /// The elements of the list that are still to come.
    pub closed spec fn remaining(&self) -> Seq<T> {
        self.ahead@ + UnrolledList::view_of(self.cur)
    }

    /// The slots taken out of the current bucket are copies of the elements
    /// they stand for, and the rest of the list is well formed.
    pub closed spec fn wf(&self) -> bool {
        &&& clones_of(self.ahead@, shown(self.slots@, self.slots@.len() as int))
        &&& self.cur matches Some(list) ==> list.wf()
    }

    /// The next element, or a clone of it where the list shares it, or
    /// nothing when all were given.
    pub fn next(&mut self) -> (r: Option<T>)
        requires
            old(self).wf(),
        ensures
            final(self).wf(),
            match r {
                Some(item) => {
                    &&& old(self).remaining().len() > 0
                    &&& cloned(old(self).remaining()[0], item)
                    &&& final(self).remaining() == old(self).remaining().skip(1)
                },
                None => old(self).remaining().len() == 0 && final(self).remaining().len() == 0,
            },
    {
        if self.slots.len() == 0 {
            let mut cur: Option<UnrolledList<T, N, G>> = None;
            core::mem::swap(&mut cur, &mut self.cur);
            match cur {
                Some(node) => {
                    let mut node = node;
                    let ghost before = node;
                    proof {
                        before.lemma_view_len();
                        assert(self.ahead@ =~= Seq::<T>::empty());
                    }
                    let cell = RcPointer::make_mut(&mut node.0);
                    let next = cell.next.take();
                    let elements = RcPointer::make_mut(&mut cell.elements);
                    let ghost copied = elements@;
                    proof {
                        lemma_cloned_vec(&*before.0.elements, &*elements);
                    }
                    elements.truncate(cell.index);
                    core::mem::swap(elements, &mut self.slots);
                    self.cur = next;
                    proof {
                        let cursor = before.0.index as int;
                        lemma_shown_prefix(copied, cursor, cursor);
                        lemma_clones_subrange(before.0.elements@, copied, 0, cursor);
                        lemma_clones_reverse(
                            before.0.elements@.subrange(0, cursor),
                            copied.subrange(0, cursor),
                        );
                        self.ahead = Ghost(before.0.live());
                        assert(Seq::<T>::empty() + before@ =~= before.0.live()
                            + UnrolledList::view_of(next));
                    }
                },
                None => {},
            }
        }
        let ghost before = *self;
        let item = self.slots.pop();
        proof {
            let n = before.slots@.len() as int;
            if n > 0 {
                lemma_shown_index(before.slots@, n, 0);
                lemma_shown_skip(before.slots@, n, 1);
                lemma_shown_prefix(before.slots@, n - 1, n - 1);
                lemma_clones_subrange(before.ahead@, shown(before.slots@, n), 1, n);
                assert(shown(before.slots@, n).skip(1) =~= shown(before.slots@, n).subrange(1, n));
                self.ahead = Ghost(before.ahead@.subrange(1, n));
                assert(self.remaining() =~= before.remaining().skip(1));
            } else {
                assert(before.ahead@ =~= Seq::<T>::empty());
                match before.cur {
                    Some(list) => {
                        list.lemma_view_len();
                    },
                    None => {},
                }
            }
        }
        item
    }
}

/// A cursor that takes a list apart and gives its elements by value, head
/// first, for as long as nothing else holds the buckets it comes to.
pub struct DrainingConsumingWrapper<T: Clone, const N: usize, const G: usize> {
    cur: Option<UnrolledList<T, N, G>>,
    slots: Vec<T>,
}

impl<T: Clone, const N: usize, const G: usize> DrainingConsumingWrapper<T, N, G> {
    /// The elements still to come if no bucket on the way is shared.
    pub closed spec fn remaining(&self) -> Seq<T> {
        shown(self.slots@, self.slots@.len() as int) + UnrolledList::view_of(self.cur)
    }

    /// The rest of the list is well formed.
    pub closed spec fn wf(&self) -> bool {
        self.cur matches Some(list) ==> list.wf()
    }

    /// The number of elements already taken out of their bucket, which
    /// come whatever else is shared.
    pub closed spec fn ready(&self) -> nat {
        self.slots@.len()
    }

    /// Takes over what a bucket shows, given the bucket's vector as it was
    /// found: with `unique` the cursor holds the first `shows` slots of the
    /// vector and goes on with `rest` if `follow` says so; without it the
    /// cursor stays as it is, at its end.
    fn refill(
        &mut self,
        unique: Option<&mut Vec<T>>,
        shows: usize,
        rest: Option<UnrolledList<T, N, G>>,
        follow: bool,
    )
        requires
            old(self).slots@.len() == 0,
            old(self).cur is None,
            rest matches Some(list) ==> list.wf(),
        ensures
            final(self).wf(),
            match unique {
                Some(slots) => {
                    &&& shows <= slots@.len() ==> final(self).slots@ == slots@.take(shows as int)
                    &&& shows > slots@.len() ==> final(self).slots@ == slots@
                    &&& final(self).cur == if follow {
                        rest
                    } else {
                        None
                    }
                },
                None => *final(self) == *old(self),
            },
    {
        match unique {
            Some(slots) => {
                slots.truncate(shows);
                core::mem::swap(slots, &mut self.slots);
                if follow {
                    self.cur = rest;
                }
            },
            None => {},
        }
    }

    /// The next element, or nothing when all were given or when the next
    /// bucket, or its vector, is held by something else too. An element
    /// that is ready is given. After nothing was returned, nothing is left
    /// to come.
    pub fn next(&mut self) -> (r: Option<T>)
        requires
            old(self).wf(),
        ensures
            final(self).wf(),
            old(self).ready() > 0 ==> r is Some && final(self).ready() == old(self).ready() - 1,
            match r {
                Some(item) => {
                    &&& old(self).remaining().len() > 0
                    &&& item == old(self).remaining()[0]
                    &&& final(self).remaining().is_prefix_of(old(self).remaining().skip(1))
                },
                None => final(self).remaining().len() == 0,
            },
    {
        if self.slots.len() == 0 {
            let mut cur: Option<UnrolledList<T, N, G>> = None;
            core::mem::swap(&mut cur, &mut self.cur);
            match cur {
                Some(node) => {
                    let ghost before = node;
                    proof {
                        before.lemma_view_len();
                    }
                    let follow = match &node.0.next {
                        Some(rest) => RcPointer::strong_count(&rest.0) == 1
                            && RcPointer::strong_count(&rest.0.elements) == 1,
                        None => false,
                    };
                    match RcPointer::try_unwrap(node.0) {
                        Some(cell) => {
                            let mut cell = cell;
                            let next = cell.next.take();
                            let shows = cell.index;
                            let unique = RcPointer::get_mut(&mut cell.elements);
                            self.refill(unique, shows, next, follow);
                            proof {
                                let cursor = before.0.index as int;
                                lemma_shown_prefix(before.0.elements@, cursor, cursor);
                                assert(before@ == before.0.live() + UnrolledList::view_of(
                                    before.0.next,
                                ));
                            }
                        },
                        None => {},
                    }
                },
                None => {},
            }
        }
        let ghost before = *self;
        let item = self.slots.pop();
        proof {
            let n = before.slots@.len() as int;
            if n > 0 {
                lemma_shown_index(before.slots@, n, 0);
                lemma_shown_skip(before.slots@, n, 1);
                lemma_shown_prefix(before.slots@, n - 1, n - 1);
                assert(self.remaining() =~= before.remaining().skip(1));
                assert(before.remaining().is_prefix_of(old(self).remaining()));
                assert(self.remaining().is_prefix_of(old(self).remaining().skip(1)));
            }
        }
        if item.is_none() {
            self.cur = None;
            proof {
                assert(self.remaining() =~= Seq::<T>::empty());
            }
        }
        item
    }
}

impl<T: Clone, const N: usize, const G: usize> UnrolledList<T, N, G> {
    /// A cursor over the elements, head first.
    pub fn iter(&self) -> (r: IterWrapper<'_, T, N, G>)
        ensures
            r.wf(),
            r.remaining() == self.raw_view(),
            self.wf() ==> r.remaining() == self@,
    {
        proof {
            if self.wf() {
                self.lemma_raw_view();
            }
        }
        IterWrapper { node: Some(self), left: self.raw_len() }
    }

    /// A cursor that gives the elements by value, head first.
    pub fn into_iter(self) -> (r: ConsumingWrapper<T, N, G>)
        requires
            self.wf(),
        ensures
            r.wf(),
            r.remaining() == self@,
    {
        let r = ConsumingWrapper { cur: Some(self), slots: Vec::new(), ahead: Ghost(Seq::empty()) };
        proof {
            assert(r.remaining() =~= self@);
        }
        r
    }

    /// A cursor that gives the elements by value, head first, and stops at
    /// the first bucket that something else holds too.
    pub fn draining_iterator(self) -> (r: DrainingConsumingWrapper<T, N, G>)
        requires
            self.wf(),
        ensures
            r.wf(),
            r.remaining() == self@,
            r.ready() == 0,
    {
        let r = DrainingConsumingWrapper { cur: Some(self), slots: Vec::new() };
        proof {
            assert(r.remaining() =~= self@);
        }
        r
    }

    /// The elements in a vector, head first: the elements themselves where
    /// nothing else holds their bucket, clones of them otherwise.
    pub fn into_vec(self) -> (r: Vec<T>)
        requires
            self.wf(),
        ensures
            clones_of(self@, r@),
    {
        let mut items: Vec<T> = Vec::new();
        let mut cursor = self.into_iter();
        loop
            invariant
                cursor.wf(),
                items@.len() + cursor.remaining().len() == self@.len(),
                clones_of(self@.take(items@.len() as int), items@),
                cursor.remaining() == self@.skip(items@.len() as int),
            ensures
                cursor.remaining().len() == 0,
            decreases cursor.remaining().len(),
        {
            let ghost given = items@;
            match cursor.next() {
                Some(item) => {
                    items.push(item);
                    proof {
                        assert(self@.skip(given.len() as int).skip(1) =~= self@.skip(
                            items@.len() as int,
                        ));
                    }
                },
                None => {
                    break ;
                },
            }
        }
        proof {
            assert(self@.take(items@.len() as int) =~= self@);
        }
        items
    }

    /// The slots of the first bucket's vector, shown or not.
    pub(crate) fn elements(&self) -> (r: &Vec<T>)
        ensures
            r@.len() == self.head_slots(),
    {
        &self.0.elements
    }

    fn size(&self) -> (r: usize)
        ensures
            r == self.head_size(),
    {
        self.0.size
    }

    /// Every bucket's vector is within the bucket's capacity.
    pub closed spec fn within_capacity(&self) -> bool
        decreases self,
    {
        &&& self.0.elements@.len() <= self.0.size
        &&& match self.0.next {
            Some(rest) => rest.within_capacity(),
            None => true,
        }
    }

    /// In every bucket the cursor is within the vector and the vector within
    /// the bucket's capacity.
    pub closed spec fn bucket_invariant(&self) -> bool
        decreases self,
    {
        &&& self.0.index <= self.0.elements@.len()
        &&& self.0.elements@.len() <= self.0.size
        &&& match self.0.next {
            Some(rest) => rest.bucket_invariant(),
            None => true,
        }
    }

    /// What well-formedness says of the buckets: each keeps its cursor
    /// within its vector and its vector within its capacity, which is at
    /// least 1; in a list of several buckets each shows something; and
    /// what the buckets show adds up to the list's length.
    pub proof fn lemma_wf_layout(&self)
        requires
            self.wf(),
        ensures
            self.bucket_invariant(),
            self.layout().len() == self.bucket_count(),
            forall|i: int|
                0 <= i < self.layout().len() ==> 1 <= (#[trigger] self.layout()[i]).0
                    && self.layout()[i].1 <= self.layout()[i].0,
            self.layout().len() > 1 ==> forall|i: int|
                0 <= i < self.layout().len() ==> (#[trigger] self.layout()[i]).1 >= 1,
            held(self.layout()) == self@.len(),
        decreases self,
    {
        self.lemma_view_len();
        match self.0.next {
            Some(rest) => {
                rest.lemma_wf_layout();
                rest.lemma_view_len();
                let layout = self.layout();
                assert(layout.skip(1) =~= rest.layout());
                assert forall|i: int| 0 <= i < layout.len() implies 1 <= (#[trigger] layout[i]).0
                    && layout[i].1 <= layout[i].0 && layout[i].1 >= 1 by {
                    if i > 0 {
                        assert(layout[i] == rest.layout()[i - 1]);
                        if rest.layout().len() == 1 {
                            assert(rest.layout()[0].1 == rest.0.index);
                        }
                    }
                }
            },
            None => {
                assert(self.layout().skip(1) =~= Seq::<(usize, usize)>::empty());
                assert(held(self.layout().skip(1)) == 0);
            },
        }
    }

    /// A well-formed list keeps every bucket within its capacity.
    pub proof fn lemma_wf_within_capacity(&self)
        requires
            self.wf(),
        ensures
            self.within_capacity(),
        decreases self,
    {
        match self.0.next {
            Some(rest) => {
                rest.lemma_wf_within_capacity();
            },
            None => {},
        }
    }

    fn does_node_satisfy_invariant(&self) -> (r: bool)
        ensures
            r == (self.head_slots() <= self.head_size()),
    {
        self.elements().len() <= self.size()
    }

    /// Whether every bucket's vector is within the bucket's capacity, which
    /// holds of every well-formed list.
    pub fn assert_invariants(&self) -> (r: bool)
        ensures
            r == self.within_capacity(),
            self.wf() ==> r,
    {
        proof {
            if self.wf() {
                self.lemma_wf_within_capacity();
            }
        }
        let mut cur = self;
        loop
            invariant
                self.within_capacity() == cur.within_capacity(),
                self.wf() ==> self.within_capacity(),
            decreases cur,
        {
            if !cur.does_node_satisfy_invariant() {
                return false;
            }
            match &cur.0.next {
                Some(rest) => {
                    cur = rest;
                },
                None => {
                    return true;
                },
            }
        }
    }
}

impl<T: Clone, const N: usize, const G: usize> Default for UnrolledList<T, N, G> {
    fn default() -> (r: Self)
        ensures
            r.wf(),
            r@ == Seq::<T>::empty(),
    {
        Self::new()
    }
}

impl<T: Clone, const N: usize, const G: usize> UnrolledCell<T, N, G> {
    fn cons(value: T, cdr: UnrolledList<T, N, G>) -> (r: UnrolledList<T, N, G>)
        requires
            cdr.wf(),
        ensures
            r.wf(),
            r@.len() == cdr@.len() + 1,
            r@[0] == value,
            clones_of(cdr@, r@.skip(1)),
            cdr.head_slots() < cdr.head_size() ==> {
                &&& r.layout() == seq![
                    (cdr.head_size() as usize, (cdr.head_len() + 1) as usize),
                ] + cdr.layout().skip(1)
                &&& r.head_slots() == cdr.head_len() + 1
            },
            cdr.head_slots() >= cdr.head_size() ==> {
                &&& r.layout() == seq![(grown(cdr.head_size() as usize, G), 1usize)]
                    + cdr.layout()
                &&& r.head_slots() == 1
                &&& r@ == seq![value] + cdr@
            },
    {
        let mut list = cdr;
        list.cons_mut(value);
        list
    }
}

} // verus!
