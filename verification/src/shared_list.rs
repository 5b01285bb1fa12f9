//! A persistent list that can be shared between threads.
//!
//! [`SharedList`] is the list of [`crate::list`] over atomic reference
//! counting: the same operations with the same contracts. Handles may be
//! sent to other threads and read there; an operation that changes a list
//! writes in place where its handle is the only one, and into a copy where
//! it is not, so no change ever shows through another handle.

use crate::model::{
    base_size, bucket_plan, clones_of, coalesced, grown, held, layout_skip, layout_take,
};
use crate::shared_unrolled::{SharedConsumingWrapper, SharedIterWrapper, SharedUnrolledList};
use vstd::prelude::*;

verus! {

/// A persistent list of `T` over atomic reference counting, with
/// buckets of capacity `N` that grow by the factor `G`.
#[derive(Debug)]
pub struct SharedList<T: Clone, const N: usize, const G: usize>(pub(crate) SharedUnrolledList<T, N, G>);

/// A shared list whose buckets double in capacity, starting at 2.
pub type SharedVList<T> = SharedList<T, 2, 2>;

impl<T: Clone, const N: usize, const G: usize> Clone for SharedList<T, N, G> {
    /// Another handle to the same list.
    fn clone(&self) -> (r: Self)
        ensures
            r == *self,
    {
        SharedList(self.0.clone())
    }
}

impl<T: Clone, const N: usize, const G: usize> SharedList<T, N, G> {
    /// The elements of the list, head first.
    pub open(crate) spec fn view(&self) -> Seq<T> {
        self.0@
    }

    /// The list's buckets are in order.
    pub open(crate) spec fn wf(&self) -> bool {
        self.0.wf()
    }

    /// The capacity and the number of shown elements of each bucket, first
    /// bucket first.
    pub open(crate) spec fn layout(&self) -> Seq<(usize, usize)> {
        self.0.layout()
    }

    /// The number of elements the first bucket shows.
    pub open(crate) spec fn head_len(&self) -> nat {
        self.0.head_len()
    }

    /// The number of slots in the first bucket's vector, shown or not.
    pub open(crate) spec fn head_slots(&self) -> nat {
        self.0.head_slots()
    }

    /// The capacity of the first bucket.
    pub open(crate) spec fn head_size(&self) -> nat {
        self.0.head_size()
    }

    /// The elements read with every bucket's cursor held within its
    /// vector: the view, for a well-formed list.
    pub open(crate) spec fn raw_view(&self) -> Seq<T> {
        self.0.raw_view()
    }

    /// Read with the cursors held within their vectors, a well-formed list
    /// shows its view.
    pub proof fn lemma_raw_view(&self)
        requires
            self.wf(),
        ensures
            self.raw_view() == self@,
    {
        self.0.lemma_raw_view();
    }

    /// What well-formedness says of the buckets: each holds no more than
    /// its capacity, which is at least 1; in a list of several buckets each
    /// shows something; and what the buckets show adds up to the list's
    /// length.
    pub proof fn lemma_wf_layout(&self)
        requires
            self.wf(),
        ensures
            forall|i: int|
                0 <= i < self.layout().len() ==> 1 <= (#[trigger] self.layout()[i]).0
                    && self.layout()[i].1 <= self.layout()[i].0,
            self.layout().len() > 1 ==> forall|i: int|
                0 <= i < self.layout().len() ==> (#[trigger] self.layout()[i]).1 >= 1,
            held(self.layout()) == self@.len(),
    {
        self.0.lemma_wf_layout();
    }

    /// An empty list.
    pub fn new() -> (r: Self)
        ensures
            r.wf(),
            r@ == Seq::<T>::empty(),
            r.layout() == seq![(base_size(N), 0usize)],
    {
        SharedList(SharedUnrolledList::new())
    }

    /// An empty list whose bucket has room for `N` elements set aside.
    pub fn new_with_capacity() -> (r: Self)
        ensures
            r.wf(),
            r@ == Seq::<T>::empty(),
            r.layout() == seq![(base_size(N), 0usize)],
    {
        SharedList(SharedUnrolledList::new_with_capacity())
    }

    /// The number of handles that share the list's first bucket.
    pub fn strong_count(&self) -> (r: usize)
        ensures
            r >= 1,
    {
        self.0.strong_count()
    }

    /// Whether the two handles share their first bucket. Handles that do
    /// are equal lists.
    pub fn ptr_eq(&self, other: &Self) -> (r: bool)
        ensures
            r ==> *self == *other,
    {
        self.0.ptr_eq(&other.0)
    }

    /// The number of elements.
    pub fn len(&self) -> (r: usize)
        requires
            self.wf(),
            self@.len() <= usize::MAX,
        ensures
            r == self@.len(),
    {
        self.0.len()
    }

    /// The list with its elements in the opposite order.
    pub fn reverse(self) -> (r: Self)
        requires
            self.wf(),
        ensures
            r.wf(),
            clones_of(self@.reverse(), r@),
            r.layout() == self.layout().reverse(),
    {
        SharedList(self.0.reverse())
    }

    /// The last element, or nothing if the list is empty.
    pub fn last(&self) -> (r: Option<&T>)
        requires
            self.wf(),
        ensures
            match r {
                Some(found) => self@.len() > 0 && *found == self@.last(),
                None => self@.len() == 0,
            },
    {
        self.0.last()
    }

    /// A clone of the first element, or nothing if the list is empty.
    pub fn car(&self) -> (r: Option<T>)
        requires
            self.wf(),
        ensures
            match r {
                Some(head) => self@.len() > 0 && cloned(self@[0], head),
                None => self@.len() == 0,
            },
    {
        self.0.car()
    }

    /// The first element, or nothing if the list is empty.
    pub fn first(&self) -> (r: Option<&T>)
        requires
            self.wf(),
        ensures
            match r {
                Some(head) => self@.len() > 0 && *head == self@[0],
                None => self@.len() == 0,
            },
    {
        self.get(0)
    }

    /// The list without its first element, sharing the buckets of this one,
    /// or nothing if the list has at most one element.
    pub fn cdr(&self) -> (r: Option<Self>)
        requires
            self.wf(),
        ensures
            match r {
                Some(rest) => {
                    &&& rest.wf()
                    &&& self@.len() >= 2
                    &&& rest@ == self@.skip(1)
                    &&& rest.layout() == layout_skip(self.layout(), 1)
                },
                None => self@.len() <= 1,
            },
    {
        match self.0.cdr() {
            Some(rest) => Some(SharedList(rest)),
            None => None,
        }
    }

    /// The list without its first element, as [`Self::cdr`] gives it.
    pub fn rest(&self) -> (r: Option<Self>)
        requires
            self.wf(),
        ensures
            match r {
                Some(rest) => {
                    &&& rest.wf()
                    &&& self@.len() >= 2
                    &&& rest@ == self@.skip(1)
                    &&& rest.layout() == layout_skip(self.layout(), 1)
                },
                None => self@.len() <= 1,
            },
    {
        self.cdr()
    }

    /// Steps the list to its tail in place and returns it, or empties the
    /// list and returns nothing if it had at most one element.
    pub fn cdr_mut(&mut self) -> (r: Option<&mut Self>)
        requires
            old(self).wf(),
        ensures
            match r {
                Some(rest) => {
                    &&& old(self)@.len() >= 2
                    &&& rest.wf()
                    &&& rest@ == old(self)@.skip(1)
                    &&& rest.layout() == layout_skip(old(self).layout(), 1)
                    &&& *final(self) == *final(rest)
                },
                None => {
                    &&& old(self)@.len() <= 1
                    &&& final(self).wf()
                    &&& final(self)@.len() == 0
                    &&& final(self).layout() == seq![(base_size(N), 0usize)]
                },
            },
    {
        match self.0.cdr_mut() {
            Some(_) => Some(self),
            None => None,
        }
    }

    /// Steps the list to its tail in place, as [`Self::cdr_mut`] does.
    pub fn rest_mut(&mut self) -> (r: Option<&mut Self>)
        requires
            old(self).wf(),
        ensures
            match r {
                Some(rest) => {
                    &&& old(self)@.len() >= 2
                    &&& rest.wf()
                    &&& rest@ == old(self)@.skip(1)
                    &&& rest.layout() == layout_skip(old(self).layout(), 1)
                    &&& *final(self) == *final(rest)
                },
                None => {
                    &&& old(self)@.len() <= 1
                    &&& final(self).wf()
                    &&& final(self)@.len() == 0
                    &&& final(self).layout() == seq![(base_size(N), 0usize)]
                },
            },
    {
        self.cdr_mut()
    }

    /// The list of `value` followed by the elements of `other`.
    pub fn cons(value: T, other: Self) -> (r: Self)
        requires
            other.wf(),
        ensures
            r.wf(),
            r@.len() == other@.len() + 1,
            r@[0] == value,
            clones_of(other@, r@.skip(1)),
            other.head_slots() < other.head_size() ==> {
                &&& r.layout() == seq![
                    (other.head_size() as usize, (other.head_len() + 1) as usize),
                ] + other.layout().skip(1)
                &&& r.head_slots() == other.head_len() + 1
            },
            other.head_slots() >= other.head_size() ==> {
                &&& r.layout() == seq![(grown(other.head_size() as usize, G), 1usize)]
                    + other.layout()
                &&& r.head_slots() == 1
                &&& r@ == seq![value] + other@
            },
    {
        SharedList(SharedUnrolledList::cons(value, other.0))
    }

    /// Puts `value` in front of the list.
    pub fn cons_mut(&mut self, value: T)
        requires
            old(self).wf(),
        ensures
            final(self).wf(),
            final(self)@.len() == old(self)@.len() + 1,
            final(self)@[0] == value,
            clones_of(old(self)@, final(self)@.skip(1)),
            old(self).head_slots() < old(self).head_size() ==> {
                &&& final(self).layout() == seq![
                    (old(self).head_size() as usize, (old(self).head_len() + 1) as usize),
                ] + old(self).layout().skip(1)
                &&& final(self).head_slots() == old(self).head_len() + 1
            },
            old(self).head_slots() >= old(self).head_size() ==> {
                &&& final(self).layout() == seq![
                    (grown(old(self).head_size() as usize, G), 1usize),
                ] + old(self).layout()
                &&& final(self).head_slots() == 1
                &&& final(self)@ == seq![value] + old(self)@
            },
    {
        self.0.cons_mut(value)
    }

    /// Puts `value` in front of the list, as [`Self::cons_mut`] does.
    pub fn push_front(&mut self, value: T)
        requires
            old(self).wf(),
        ensures
            final(self).wf(),
            final(self)@.len() == old(self)@.len() + 1,
            final(self)@[0] == value,
            clones_of(old(self)@, final(self)@.skip(1)),
            old(self).head_slots() < old(self).head_size() ==> {
                &&& final(self).layout() == seq![
                    (old(self).head_size() as usize, (old(self).head_len() + 1) as usize),
                ] + old(self).layout().skip(1)
                &&& final(self).head_slots() == old(self).head_len() + 1
            },
            old(self).head_slots() >= old(self).head_size() ==> {
                &&& final(self).layout() == seq![
                    (grown(old(self).head_size() as usize, G), 1usize),
                ] + old(self).layout()
                &&& final(self).head_slots() == 1
                &&& final(self)@ == seq![value] + old(self)@
            },
    {
        self.0.push_front(value)
    }

    /// Takes the first element off the list and returns it, or returns
    /// nothing if the list is empty.
    pub fn pop_front(&mut self) -> (r: Option<T>)
        requires
            old(self).wf(),
        ensures
            final(self).wf(),
            match r {
                Some(head) => {
                    &&& old(self)@.len() > 0
                    &&& cloned(old(self)@[0], head)
                    &&& clones_of(old(self)@.skip(1), final(self)@)
                    &&& old(self)@.len() >= 2 ==> final(self).layout() == layout_skip(
                        old(self).layout(),
                        1,
                    )
                    &&& old(self)@.len() == 1 ==> final(self).layout() == seq![
                        (old(self).head_size() as usize, 0usize),
                    ]
                },
                None => old(self)@.len() == 0 && *final(self) == *old(self),
            },
    {
        self.0.pop_front()
    }

    /// Puts `value` behind the last element.
    pub fn push_back(&mut self, value: T)
        requires
            old(self).wf(),
        ensures
            final(self).wf(),
            clones_of(old(self)@.push(value), final(self)@),
            final(self).layout() == coalesced(old(self).layout().push((base_size(N), 1usize))),
    {
        self.0.push_back(value)
    }

    /// A list of the first `count` elements, or of all of them if the list
    /// is shorter.
    pub fn take(&self, count: usize) -> (r: Self)
        requires
            self.wf(),
        ensures
            r.wf(),
            count >= self@.len() ==> clones_of(self@, r@),
            0 < count && count >= self@.len() ==> r.layout() == self.layout(),
            count < self@.len() ==> clones_of(self@.take(count as int), r@),
            0 < count < self@.len() ==> r.layout() == layout_take(self.layout(), count as nat),
            count == 0 ==> r.layout() == seq![(base_size(N), 0usize)],
    {
        SharedList(self.0.take(count))
    }

    /// The list without its first `len` elements, or nothing if the list is
    /// shorter than `len`.
    pub fn tail(&self, len: usize) -> (r: Option<Self>)
        requires
            self.wf(),
        ensures
            match r {
                Some(rest) => {
                    &&& len <= self@.len()
                    &&& rest.wf()
                    &&& rest@ == self@.skip(len as int)
                    &&& len == 0 ==> rest == *self
                    &&& 0 < len < self@.len() ==> rest.layout() == layout_skip(
                        self.layout(),
                        len as nat,
                    )
                    &&& 0 < len == self@.len() ==> rest.layout() == seq![(base_size(N), 0usize)]
                },
                None => len > self@.len(),
            },
    {
        match self.0.tail(len) {
            Some(rest) => Some(SharedList(rest)),
            None => None,
        }
    }

    /// A cursor over the elements, head first.
    pub fn iter(&self) -> (r: SharedIter<'_, T, N, G>)
        ensures
            r.wf(),
            r.remaining() == self.raw_view(),
            self.wf() ==> r.remaining() == self@,
    {
        SharedIter(self.0.iter())
    }

    /// A cursor that takes the list apart and gives the elements by value,
    /// head first.
    pub fn into_iter(self) -> (r: SharedConsumingIter<T, N, G>)
        requires
            self.wf(),
        ensures
            r.wf(),
            r.remaining() == self@,
    {
        SharedConsumingIter(self.0.into_iter())
    }

    /// The element at position `index` from the head, or nothing if the
    /// list is not that long.
    pub fn get(&self, index: usize) -> (r: Option<&T>)
        requires
            self.wf(),
        ensures
            match r {
                Some(found) => index < self@.len() && *found == self@[index as int],
                None => index >= self@.len(),
            },
    {
        self.0.get(index)
    }

    /// The elements of this list followed by those of `other`.
    pub fn append(self, other: Self) -> (r: Self)
        requires
            self.wf(),
            other.wf(),
        ensures
            r.wf(),
            clones_of(self@ + other@, r@),
            other@.len() == 0 ==> r == self,
            other@.len() > 0 ==> r.layout() == coalesced(self.layout() + other.layout()),
    {
        SharedList(self.0.append(other.0))
    }

    /// Puts the elements of `other` behind those of this list.
    pub fn append_mut(&mut self, other: Self)
        requires
            old(self).wf(),
            other.wf(),
        ensures
            final(self).wf(),
            clones_of(old(self)@ + other@, final(self)@),
            other@.len() == 0 ==> *final(self) == *old(self),
            other@.len() > 0 ==> final(self).layout() == coalesced(
                old(self).layout() + other.layout(),
            ),
    {
        self.0.append_mut(other.0);
    }

    /// Puts the elements of `items`, in their order, behind those of this
    /// list.
    pub fn extend(&mut self, items: Vec<T>)
        requires
            old(self).wf(),
        ensures
            final(self).wf(),
            clones_of(old(self)@ + items@, final(self)@),
            items@.len() == 0 ==> *final(self) == *old(self),
            items@.len() > 0 ==> final(self).layout() == coalesced(
                old(self).layout() + bucket_plan(base_size(N), G, items@.len()).reverse(),
            ),
    {
        self.0.extend(items)
    }

    /// Whether the list has no element.
    pub fn is_empty(&self) -> (r: bool)
        requires
            self.wf(),
        ensures
            r == (self@.len() == 0),
    {
        self.0.is_empty()
    }

    /// The list of the elements of `items` in their order.
    pub fn from_vec(items: Vec<T>) -> (r: Self)
        ensures
            r.wf(),
            r@ == items@,
            items@.len() > 0 ==> r.layout() == bucket_plan(base_size(N), G, items@.len()).reverse(),
            items@.len() == 0 ==> r.layout() == seq![(base_size(N), 0usize)],
    {
        SharedList(SharedUnrolledList::from_vec(items))
    }

    /// The list of clones of the elements of `items` in their order.
    pub fn from_slice(items: &[T]) -> (r: Self)
        ensures
            r.wf(),
            clones_of(items@, r@),
    {
        let mut copy: Vec<T> = Vec::new();
        let mut i: usize = 0;
        while i < items.len()
            invariant
                i <= items@.len(),
                clones_of(items@.take(i as int), copy@),
            decreases items@.len() - i,
        {
            let ghost before = copy@;
            copy.push(items[i].clone());
            i = i + 1;
            proof {
                assert forall|k: int| 0 <= k < i implies cloned(
                    #[trigger] items@.take(i as int)[k],
                    copy@[k],
                ) by {
                    if k < i - 1 {
                        assert(cloned(items@.take(i - 1)[k], before[k]));
                    }
                }
            }
        }
        proof {
            assert(items@.take(i as int) =~= items@);
        }
        Self::from_vec(copy)
    }

    /// The elements of all of `lists` in one list, each list's after those of
    /// the list before it.
    pub fn from_iter(lists: Vec<Self>) -> (r: Self)
        requires
            Self::all_wf(lists@),
        ensures
            r.wf(),
            clones_of(Self::concat(lists@), r@),
            coalesced(Self::layouts(lists@)).len() > 0 ==> r.layout() == coalesced(
                Self::layouts(lists@),
            ),
            coalesced(Self::layouts(lists@)).len() == 0 ==> r.layout() == seq![
                (base_size(N), 0usize),
            ],
    {
        let mut lists = lists;
        let ghost all = lists@;
        let mut reversed: Vec<Self> = Vec::new();
        while lists.len() > 0
            invariant
                Self::all_wf(lists@),
                Self::all_wf(reversed@),
                Self::concat(all) == Self::concat(lists@) + Self::concat(reversed@.reverse()),
                Self::layouts(all) == Self::layouts(lists@) + Self::layouts(reversed@.reverse()),
            decreases lists.len(),
        {
            let ghost row = lists@;
            let ghost turned = reversed@;
            let list = lists.pop().unwrap();
            reversed.push(list);
            proof {
                assert(lists@ =~= row.drop_last());
                assert(reversed@.reverse() =~= seq![list] + turned.reverse());
                Self::lemma_concat_front(list, turned.reverse());
                assert((Self::concat(lists@) + list@) + Self::concat(turned.reverse())
                    =~= Self::concat(lists@) + (list@ + Self::concat(turned.reverse())));
                assert((Self::layouts(lists@) + list.layout()) + Self::layouts(turned.reverse())
                    =~= Self::layouts(lists@) + (list.layout() + Self::layouts(
                    turned.reverse(),
                )));
            }
        }
        let mut nodes: Vec<SharedUnrolledList<T, N, G>> = Vec::new();
        let ghost order = reversed@.reverse();
        let ghost start = SharedUnrolledList::<T, N, G>::lives(nodes@);
        proof {
            assert(Self::concat(lists@) + Self::concat(order) =~= Self::concat(order));
            assert(Self::layouts(lists@) + Self::layouts(order) =~= Self::layouts(order));
            SharedUnrolledList::<T, N, G>::lemma_lives_empty();
            SharedUnrolledList::<T, N, G>::lemma_rows_empty();
            assert(nodes@ =~= Seq::<SharedUnrolledList<T, N, G>>::empty());
        }
        while reversed.len() > 0
            invariant
                Self::all_wf(reversed@),
                SharedUnrolledList::all_wf(nodes@),
                SharedUnrolledList::lives(nodes@) + Self::concat(reversed@.reverse()) == Self::concat(
                    order,
                ),
                SharedUnrolledList::rows(nodes@) + Self::layouts(reversed@.reverse()) == Self::layouts(
                    order,
                ),
            decreases reversed.len(),
        {
            let ghost row = reversed@;
            let ghost before = SharedUnrolledList::lives(nodes@);
            let ghost laid = SharedUnrolledList::rows(nodes@);
            let list = reversed.pop().unwrap();
            proof {
                assert(reversed@ =~= row.drop_last());
                assert(row.reverse() =~= seq![list] + reversed@.reverse());
                Self::lemma_concat_front(list, reversed@.reverse());
                assert(list.wf());
            }
            SharedUnrolledList::collect_nodes(list.0, &mut nodes);
            proof {
                assert((before + list@) + Self::concat(reversed@.reverse()) =~= before + (list@
                    + Self::concat(reversed@.reverse())));
                assert((laid + list.layout()) + Self::layouts(reversed@.reverse()) =~= laid + (
                list.layout() + Self::layouts(reversed@.reverse())));
            }
        }
        proof {
            assert(SharedUnrolledList::lives(nodes@) + Self::concat(reversed@.reverse())
                =~= SharedUnrolledList::lives(nodes@));
            assert(SharedUnrolledList::rows(nodes@) + Self::layouts(reversed@.reverse())
                =~= SharedUnrolledList::rows(nodes@));
        }
        SharedList(SharedUnrolledList::from_iter(nodes))
    }

    /// The elements of all of `lists` in one list, as [`Self::from_iter`]
    /// gives it.
    pub fn sum(lists: Vec<Self>) -> (r: Self)
        requires
            Self::all_wf(lists@),
        ensures
            r.wf(),
            clones_of(Self::concat(lists@), r@),
            coalesced(Self::layouts(lists@)).len() > 0 ==> r.layout() == coalesced(
                Self::layouts(lists@),
            ),
            coalesced(Self::layouts(lists@)).len() == 0 ==> r.layout() == seq![
                (base_size(N), 0usize),
            ],
    {
        Self::from_iter(lists)
    }

    /// Every list of the row is well formed.
    pub open spec fn all_wf(lists: Seq<Self>) -> bool {
        forall|i: int| 0 <= i < lists.len() ==> (#[trigger] lists[i]).wf()
    }

    /// The elements of the lists of a row, one list after the other.
    pub open spec fn concat(lists: Seq<Self>) -> Seq<T>
        decreases lists.len(),
    {
        if lists.len() == 0 {
            Seq::empty()
        } else {
            Self::concat(lists.drop_last()) + lists.last()@
        }
    }

    /// The layouts of the lists of a row, one list's after the other's.
    pub open spec fn layouts(lists: Seq<Self>) -> Seq<(usize, usize)>
        decreases lists.len(),
    {
        if lists.len() == 0 {
            Seq::empty()
        } else {
            Self::layouts(lists.drop_last()) + lists.last().layout()
        }
    }

    proof fn lemma_concat_front(list: Self, lists: Seq<Self>)
        ensures
            Self::concat(seq![list] + lists) == list@ + Self::concat(lists),
            Self::layouts(seq![list] + lists) == list.layout() + Self::layouts(lists),
        decreases lists.len(),
    {
        if lists.len() == 0 {
            assert(seq![list] + lists =~= seq![list]);
            assert(seq![list].drop_last() =~= Seq::<Self>::empty());
            assert(seq![list].last() == list);
            assert(Self::concat(Seq::<Self>::empty()) =~= Seq::<T>::empty());
            assert(Self::concat(seq![list]) =~= list@);
            assert(list@ + Self::concat(lists) =~= list@);
            assert(Self::layouts(Seq::<Self>::empty()) =~= Seq::<(usize, usize)>::empty());
            assert(Self::layouts(seq![list]) =~= list.layout());
            assert(list.layout() + Self::layouts(lists) =~= list.layout());
        } else {
            assert((seq![list] + lists).drop_last() =~= seq![list] + lists.drop_last());
            Self::lemma_concat_front(list, lists.drop_last());
            assert((list@ + Self::concat(lists.drop_last())) + lists.last()@ =~= list@ + (
            Self::concat(lists.drop_last()) + lists.last()@));
            assert((list.layout() + Self::layouts(lists.drop_last())) + lists.last().layout()
                =~= list.layout() + (Self::layouts(lists.drop_last()) + lists.last().layout()));
        }
    }
}

impl<T: Clone, const N: usize, const G: usize> Default for SharedList<T, N, G> {
    fn default() -> (r: Self)
        ensures
            r.wf(),
            r@ == Seq::<T>::empty(),
    {
        Self::new()
    }
}

/// A cursor over the elements of a borrowed list, head first.
pub struct SharedIter<'a, T: Clone, const N: usize, const G: usize>(SharedIterWrapper<'a, T, N, G>);

impl<'a, T: Clone, const N: usize, const G: usize> SharedIter<'a, T, N, G> {
    /// The elements still to come.
    pub closed spec fn remaining(&self) -> Seq<T> {
        self.0.remaining()
    }

    /// The cursor stands within its list.
    pub closed spec fn wf(&self) -> bool {
        self.0.wf()
    }

    /// The next element, or nothing when all were given.
    pub fn next(&mut self) -> (r: Option<&'a T>)
        requires
            old(self).wf(),
        ensures
            final(self).wf(),
            match r {
                Some(item) => {
                    &&& old(self).remaining().len() > 0
                    &&& *item == old(self).remaining()[0]
                    &&& final(self).remaining() == old(self).remaining().skip(1)
                },
                None => old(self).remaining().len() == 0 && final(self).remaining().len() == 0,
            },
    {
        self.0.next()
    }

    /// The number of elements still to come from the bucket the cursor
    /// stands in.
    pub closed spec fn in_bucket(&self) -> nat {
        self.0.in_bucket()
    }

    /// A number of elements that are still to come for certain: those of
    /// the bucket the cursor stands in.
    pub fn size_hint(&self) -> (r: usize)
        requires
            self.wf(),
        ensures
            r == self.in_bucket(),
            r <= self.remaining().len(),
    {
        self.0.size_hint()
    }
}

/// A cursor that takes a list apart and gives its elements by value, head
/// first.
pub struct SharedConsumingIter<T: Clone, const N: usize, const G: usize>(SharedConsumingWrapper<T, N, G>);

impl<T: Clone, const N: usize, const G: usize> SharedConsumingIter<T, N, G> {
    /// The elements of the list that are still to come.
    pub closed spec fn remaining(&self) -> Seq<T> {
        self.0.remaining()
    }

    /// The cursor stands within its list.
    pub closed spec fn wf(&self) -> bool {
        self.0.wf()
    }

    /// The next element, or a clone of it where the list shares it, or
    /// nothing when all were given.
    pub fn next(&mut self) -> (r: Option<T>)
        requires
            old(self).wf(),
        ensures
            final(self).wf(),
            match r {
                Some(item) => {
                    &&& old(self).remaining().len() > 0
                    &&& cloned(old(self).remaining()[0], item)
                    &&& final(self).remaining() == old(self).remaining().skip(1)
                },
                None => old(self).remaining().len() == 0 && final(self).remaining().len() == 0,
            },
    {
        self.0.next()
    }
}

impl<T: Clone, const N: usize, const G: usize> From<Vec<T>> for SharedList<T, N, G> {
    /// The list of the elements of `items` in their order.
    fn from(items: Vec<T>) -> (r: Self)
        ensures
            r.wf(),
            r@ == items@,
    {
        Self::from_vec(items)
    }
}

impl<T: Clone, const N: usize, const G: usize> vstd::std_specs::convert::FromSpecImpl<Vec<T>> for SharedList<T, N, G> {
    open spec fn obeys_from_spec() -> bool {
        false
    }

    open spec fn from_spec(items: Vec<T>) -> Self {
        arbitrary()
    }
}

impl<T: Clone, const N: usize, const G: usize> core::ops::Index<usize> for SharedList<T, N, G> {
    type Output = T;

    /// The element at position `index` from the head.
    fn index(&self, index: usize) -> (r: &T)
        ensures
            *r == self@[index as int],
    {
        match self.get(index) {
            Some(value) => value,
            None => vstd::pervasive::unreached(),
        }
    }
}

impl<T: Clone, const N: usize, const G: usize> vstd::std_specs::core::IndexSpecImpl<usize> for SharedList<T, N, G> {
    open spec fn index_req(&self, index: &usize) -> bool {
        self.wf() && *index < self@.len()
    }
}

impl<T: Clone, const N: usize, const G: usize> core::ops::Add for SharedList<T, N, G> {
    type Output = SharedList<T, N, G>;

    /// The elements of this list followed by those of `other`.
    fn add(self, other: Self) -> (r: Self)
        ensures
            r.wf(),
            clones_of(self@ + other@, r@),
            other@.len() == 0 ==> r == self,
            other@.len() > 0 ==> r.layout() == coalesced(self.layout() + other.layout()),
    {
        self.append(other)
    }
}

impl<T: Clone, const N: usize, const G: usize> vstd::std_specs::ops::AddSpecImpl for SharedList<T, N, G> {
    open spec fn obeys_add_spec() -> bool {
        false
    }

    open spec fn add_req(self, other: Self) -> bool {
        self.wf() && other.wf()
    }

    open spec fn add_spec(self, other: Self) -> Self {
        arbitrary()
    }
}

impl<T: Clone + core::hash::Hash, const N: usize, const G: usize> core::hash::Hash for SharedList<T, N, G> {
    /// Feeds the elements to `state`, head first.
    fn hash<H: core::hash::Hasher>(&self, state: &mut H) {
        let mut cursor = self.iter();
        loop
            invariant
                cursor.wf(),
            decreases cursor.remaining().len(),
        {
            match cursor.next() {
                Some(item) => {
                    crate::backing::hash_into(item, state);
                },
                None => {
                    break ;
                },
            }
        }
    }
}

} // verus!
