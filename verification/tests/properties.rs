use im_lists::list::{GenericList, List, VList};
use im_lists::shared::{ArcPointer, PointerFamily, RcPointer};
use im_lists::unrolled::{ExponentialChunks, UnrolledList};

fn shown<const N: usize, const G: usize>(list: &GenericList<usize, N, G>) -> Vec<usize> {
    let mut out = Vec::new();
    let mut cursor = list.iter();
    while let Some(item) = cursor.next() {
        out.push(*item);
    }
    out
}

fn bucket_lens<const N: usize, const G: usize>(list: &UnrolledList<usize, N, G>) -> Vec<usize> {
    let mut out = Vec::new();
    let mut cur = Some(list.clone());
    while let Some(node) = cur {
        out.push(node.index());
        cur = node.tail(node.index()).filter(|rest| !rest.is_empty());
    }
    out
}

fn range(from: usize, to: usize) -> Vec<usize> {
    (from..to).collect()
}

#[test]
fn built_list_shows_its_vector() {
    for n in [0usize, 1, 2, 255, 256, 257, 512, 1000] {
        let list: List<usize> = List::from_vec(range(0, n));
        assert_eq!(shown(&list), range(0, n));
        assert_eq!(list.len(), n);
        for i in 0..n {
            assert_eq!(list.get(i), Some(&i));
        }
        assert_eq!(list.get(n), None);
        assert_eq!(list.last().copied(), range(0, n).last().copied());
        let doubling: VList<usize> = VList::from_vec(range(0, n));
        assert_eq!(shown(&doubling), range(0, n));
        assert_eq!(doubling.len(), n);
        assert_eq!(doubling.last().copied(), range(0, n).last().copied());
    }
}

#[test]
fn reverse_shows_the_vector_backwards() {
    for n in [0usize, 1, 5, 256, 300, 1000] {
        let mut expected = range(0, n);
        expected.reverse();
        let list: List<usize> = List::from_vec(range(0, n));
        assert_eq!(shown(&list.clone().reverse()), expected);
        assert_eq!(shown(&list.clone().reverse().reverse()), range(0, n));
        let doubling: VList<usize> = VList::from_vec(range(0, n));
        assert_eq!(shown(&doubling.clone().reverse()), expected);
        assert_eq!(shown(&doubling.reverse().reverse()), range(0, n));
    }
}

#[test]
fn take_gives_the_prefix() {
    let n = 600usize;
    let list: List<usize> = List::from_vec(range(0, n));
    let doubling: VList<usize> = VList::from_vec(range(0, n));
    for k in [0usize, 1, 87, 88, 89, 344, 345, 599, 600, 601, 5000] {
        let upto = k.min(n);
        assert_eq!(shown(&list.take(k)), range(0, upto));
        assert_eq!(shown(&doubling.take(k)), range(0, upto));
        assert_eq!(list.take(k).last().copied(), range(0, upto).last().copied());
    }
    assert_eq!(shown(&list), range(0, n));
}

#[test]
fn tail_gives_the_suffix() {
    let n = 600usize;
    let list: List<usize> = List::from_vec(range(0, n));
    let doubling: VList<usize> = VList::from_vec(range(0, n));
    for k in [0usize, 1, 87, 88, 89, 344, 599, 600] {
        assert_eq!(shown(&list.tail(k).unwrap()), range(k, n));
        assert_eq!(shown(&doubling.tail(k).unwrap()), range(k, n));
    }
    assert!(list.tail(601).is_none());
    assert!(doubling.tail(601).is_none());
    assert!(list.tail(usize::MAX).is_none());
}

#[test]
fn append_shows_both_in_order() {
    for (a, b) in [(0usize, 0usize), (0, 5), (5, 0), (3, 255), (256, 256), (356, 400), (1000, 1)] {
        let left: List<usize> = List::from_vec(range(0, a));
        let right: List<usize> = List::from_vec(range(a, a + b));
        let both = left.append(right);
        assert_eq!(shown(&both), range(0, a + b));
        assert_eq!(both.len(), a + b);
        assert_eq!(both, List::from_vec(range(0, a + b)));
        let left: VList<usize> = VList::from_vec(range(0, a));
        let right: VList<usize> = VList::from_vec(range(a, a + b));
        let both = left.append(right);
        assert_eq!(shown(&both), range(0, a + b));
    }
}

#[test]
fn append_is_associative() {
    let a: VList<usize> = VList::from_vec(range(0, 7));
    let b: VList<usize> = VList::from_vec(range(7, 20));
    let c: VList<usize> = VList::from_vec(range(20, 23));
    let left = a.clone().append(b.clone()).append(c.clone());
    let right = a.append(b.append(c));
    assert_eq!(left, right);
    assert_eq!(shown(&left), range(0, 23));
}

#[test]
fn cdr_twice_on_the_same_list() {
    let list: List<usize> = List::from_vec(vec![1, 2, 3, 4, 5]);
    assert_eq!(shown(&list.cdr().unwrap()), vec![2, 3, 4, 5]);
    assert_eq!(shown(&list.cdr().unwrap()), vec![2, 3, 4, 5]);
    assert_eq!(shown(&list), vec![1, 2, 3, 4, 5]);
}

#[test]
fn cons_mut_on_an_empty_list() {
    let mut list: List<usize> = List::new();
    list.cons_mut(3);
    list.cons_mut(2);
    list.cons_mut(1);
    list.cons_mut(0);
    assert_eq!(shown(&list), vec![0, 1, 2, 3]);
}

#[test]
fn coalescing_keeps_four_buckets() {
    let left: UnrolledList<usize, 256, 1> = UnrolledList::from_vec(range(0, 356));
    let right: UnrolledList<usize, 256, 1> = UnrolledList::from_vec(range(356, 756));
    let both = left.append(right);
    assert_eq!(both.cell_count(), 4);
    assert_eq!(both.get(300), Some(&300));
    assert!(both.assert_invariants());
    assert_eq!(bucket_lens(&both), vec![100, 256, 144, 256]);
}

#[test]
fn small_buckets_merge_on_append() {
    let left: UnrolledList<usize, 256, 1> = UnrolledList::from_vec(range(0, 5));
    let right: UnrolledList<usize, 256, 1> = UnrolledList::from_vec(range(5, 10));
    let both = left.append(right);
    assert_eq!(both.cell_count(), 1);
    assert_eq!(bucket_lens(&both), vec![10]);
    assert!(both.assert_invariants());
}

#[test]
fn car_and_cdr_walk_the_list() {
    let mut list: Option<List<usize>> = Some(List::from_vec(range(0, 1000)));
    let mut seen = Vec::new();
    while let Some(current) = list {
        match current.car() {
            Some(head) => seen.push(head),
            None => break,
        }
        list = current.cdr();
    }
    assert_eq!(seen, range(0, 1000));
}

#[test]
fn pop_front_empties_the_list() {
    let mut list: List<usize> = List::from_vec(vec![1, 2, 3]);
    assert_eq!(list.pop_front(), Some(1));
    assert_eq!(list.pop_front(), Some(2));
    assert_eq!(list.pop_front(), Some(3));
    assert_eq!(list.pop_front(), None);
    assert!(list.is_empty());
    assert_eq!(list.len(), 0);
}

#[test]
fn doubling_buckets_lay_out_twenty_elements() {
    let list: UnrolledList<usize, 2, 2> = UnrolledList::from_vec(range(1, 21));
    assert_eq!(bucket_lens(&list), vec![6, 8, 4, 2]);
    assert_eq!(list.cell_count(), 4);
    assert!(list.assert_invariants());
}

#[test]
fn chunk_sizes_grow_from_the_last_bucket() {
    let mut chunks = ExponentialChunks::<2, 2>::new(20, 2);
    assert_eq!(chunks.next(), Some((2, 2)));
    assert_eq!(chunks.next(), Some((4, 4)));
    assert_eq!(chunks.next(), Some((8, 8)));
    assert_eq!(chunks.next(), Some((16, 6)));
    assert_eq!(chunks.next(), None);
    assert_eq!(chunks.next(), None);

    let mut uniform = ExponentialChunks::<256, 1>::new(600, 256);
    assert_eq!(uniform.next(), Some((256, 256)));
    assert_eq!(uniform.next(), Some((256, 256)));
    assert_eq!(uniform.next(), Some((256, 88)));
    assert_eq!(uniform.next(), None);

    let mut none = ExponentialChunks::<4, 3>::new(0, 4);
    assert_eq!(none.next(), None);

    let mut zero_rate = ExponentialChunks::<3, 0>::new(7, 3);
    assert_eq!(zero_rate.next(), Some((3, 3)));
    assert_eq!(zero_rate.next(), Some((3, 3)));
    assert_eq!(zero_rate.next(), Some((3, 1)));
    assert_eq!(zero_rate.next(), None);

    let mut huge = ExponentialChunks::<1, 2>::new(usize::MAX, usize::MAX / 2 + 1);
    assert_eq!(huge.next(), Some((usize::MAX / 2 + 1, usize::MAX / 2 + 1)));
    assert_eq!(huge.next(), Some((usize::MAX, usize::MAX / 2)));
    assert_eq!(huge.next(), None);
}

#[test]
fn a_clone_is_not_changed_through_the_other() {
    let original: List<usize> = List::from_vec(range(0, 1000));
    let mut copy = original.clone();
    copy.cons_mut(999999);
    assert_eq!(shown(&original), range(0, 1000));
    let mut expected = vec![999999];
    expected.extend(range(0, 1000));
    assert_eq!(shown(&copy), expected);

    let mut popped = original.clone();
    assert_eq!(popped.pop_front(), Some(0));
    let mut pushed = original.clone();
    pushed.push_back(7);
    let reversed = original.clone().reverse();
    let mut sorted = reversed.clone();
    sorted.sort();
    let mut stepped = original.clone();
    assert!(stepped.cdr_mut().is_some());
    assert_eq!(shown(&original), range(0, 1000));
    assert_eq!(shown(&popped), range(1, 1000));
    assert_eq!(shown(&stepped), range(1, 1000));
    assert_eq!(shown(&sorted), range(0, 1000));
    assert_eq!(pushed.len(), 1001);
    assert_eq!(reversed.get(0), Some(&999));
}

#[test]
fn a_full_bucket_gets_a_new_one_in_front() {
    let mut list: UnrolledList<usize, 4, 2> = UnrolledList::from_vec(range(0, 4));
    list.cons_mut(9);
    assert_eq!(bucket_lens(&list), vec![1, 4]);
    list.cons_mut(8);
    assert_eq!(bucket_lens(&list), vec![2, 4]);
    for i in 0..6 {
        list.cons_mut(i);
    }
    assert_eq!(bucket_lens(&list), vec![8, 4]);
    list.cons_mut(100);
    assert_eq!(bucket_lens(&list), vec![1, 8, 4]);
    assert!(list.assert_invariants());
}

#[test]
fn cons_after_cdr_cuts_the_hidden_slots() {
    let list: UnrolledList<usize, 256, 1> = UnrolledList::from_vec(vec![1, 2, 3]);
    let mut rest = list.cdr().unwrap();
    rest.cons_mut(7);
    let mut cursor = rest.iter();
    let mut seen = Vec::new();
    while let Some(item) = cursor.next() {
        seen.push(*item);
    }
    assert_eq!(seen, vec![7, 2, 3]);
    assert_eq!(list.get(0), Some(&1));
    assert_eq!(list.len(), 3);

    let consed = UnrolledList::cons(5, list.cdr().unwrap());
    assert_eq!(consed.get(0), Some(&5));
    assert_eq!(consed.get(1), Some(&2));
    assert_eq!(consed.len(), 3);
}

#[test]
fn reading_past_hidden_slots() {
    let list: UnrolledList<usize, 4, 1> = UnrolledList::from_vec(range(0, 10));
    let rest = list.cdr().unwrap();
    assert_eq!(rest.len(), 9);
    for i in 0..9 {
        assert_eq!(rest.get(i), Some(&(i + 1)));
    }
    assert_eq!(rest.get(9), None);
    assert_eq!(rest.tail(1).unwrap().get(0), Some(&2));
    assert_eq!(rest.tail(5).unwrap().len(), 4);
    let taken = rest.take(3);
    assert_eq!(taken.len(), 3);
    assert_eq!(taken.get(2), Some(&3));
    assert_eq!(taken.last(), Some(&3));
    let mut popped = rest.clone();
    assert_eq!(popped.pop_front(), Some(1));
    assert_eq!(popped.pop_front(), Some(2));
    assert_eq!(popped.get(0), Some(&3));
    assert_eq!(rest.get(0), Some(&1));
}

#[test]
fn take_up_to_a_bucket_boundary() {
    let list: UnrolledList<usize, 4, 1> = UnrolledList::from_vec(range(0, 10));
    let taken = list.take(2);
    assert_eq!(taken.len(), 2);
    assert_eq!(taken.last(), Some(&1));
    assert_eq!(taken.cell_count(), 1);
    let taken = list.take(6);
    assert_eq!(taken.len(), 6);
    assert_eq!(taken.last(), Some(&5));
    assert_eq!(taken.cell_count(), 2);
}

#[test]
fn dropping_a_long_chain() {
    let mut list: UnrolledList<usize, 1, 1> = UnrolledList::new();
    for i in 0..1_000_000usize {
        list.cons_mut(i);
    }
    assert_eq!(list.cell_count(), 1_000_000);
    drop(list);
    let built: UnrolledList<usize, 1, 1> = UnrolledList::from_vec(range(0, 1_000_000));
    assert_eq!(built.get(0), Some(&0));
    drop(built);
}

#[test]
fn counts_return_to_one() {
    let mut list: List<usize> = List::from_vec(range(0, 600));
    assert_eq!(list.strong_count(), 1);
    {
        let copy = list.clone();
        assert_eq!(list.strong_count(), 2);
        assert!(list.ptr_eq(&copy));
        list.cons_mut(1);
        assert!(!list.ptr_eq(&copy));
        assert_eq!(copy.strong_count(), 1);
    }
    assert_eq!(list.strong_count(), 1);
    {
        let copy = list.clone();
        list.pop_front();
        list.push_back(3);
        let _ = copy.len();
    }
    assert_eq!(list.strong_count(), 1);
    let rest = list.cdr().unwrap();
    assert_eq!(rest.strong_count(), 1);
    drop(rest);
    assert_eq!(list.strong_count(), 1);
}

#[test]
fn sorting_orders_and_keeps_the_elements() {
    let mut list: List<usize> = List::from_vec(vec![4, 2, 6, 3, 1, 5, 3, 3]);
    list.sort();
    assert_eq!(shown(&list), vec![1, 2, 3, 3, 3, 4, 5, 6]);

    let mut pairs: List<(usize, usize)> =
        List::from_vec(vec![(2, 0), (1, 1), (2, 2), (1, 3), (0, 4)]);
    pairs.sort_by(|a, b| a.0.cmp(&b.0));
    let mut seen = Vec::new();
    let mut cursor = pairs.iter();
    while let Some(item) = cursor.next() {
        seen.push(*item);
    }
    assert_eq!(seen, vec![(0, 4), (1, 1), (1, 3), (2, 0), (2, 2)]);

    let mut backwards: VList<usize> = VList::from_vec(range(0, 50));
    backwards.sort_by(|a, b| b.cmp(a));
    let mut expected = range(0, 50);
    expected.reverse();
    assert_eq!(shown(&backwards), expected);

    let mut empty: List<usize> = List::new();
    empty.sort();
    assert!(empty.is_empty());
}

#[test]
fn consuming_gives_every_element_once() {
    let list: List<usize> = List::from_vec(range(0, 700));
    let kept = list.clone();
    let mut cursor = list.into_iter();
    let mut seen = Vec::new();
    while let Some(item) = cursor.next() {
        seen.push(item);
    }
    assert_eq!(seen, range(0, 700));
    assert_eq!(cursor.next(), None);
    assert_eq!(shown(&kept), range(0, 700));

    let rest = kept.cdr().unwrap();
    let mut cursor = rest.into_iter();
    assert_eq!(cursor.next(), Some(1));
}

#[test]
fn draining_stops_at_shared_buckets() {
    let list: UnrolledList<usize, 4, 1> = UnrolledList::from_vec(range(0, 10));
    let mut cursor = list.draining_iterator();
    let mut seen = Vec::new();
    while let Some(item) = cursor.next() {
        seen.push(item);
    }
    assert_eq!(seen, range(0, 10));
    assert_eq!(cursor.next(), None);

    let list: UnrolledList<usize, 4, 1> = UnrolledList::from_vec(range(0, 10));
    let held = list.clone();
    let mut cursor = list.draining_iterator();
    assert_eq!(cursor.next(), None);
    assert_eq!(held.len(), 10);

    let list: UnrolledList<usize, 4, 1> = UnrolledList::from_vec(range(0, 10));
    let held = list.tail(2).unwrap().tail(4).unwrap();
    let mut cursor = list.draining_iterator();
    let mut seen = Vec::new();
    while let Some(item) = cursor.next() {
        seen.push(item);
    }
    assert!(seen.len() < 10);
    assert_eq!(seen, range(0, seen.len()));
    assert_eq!(held.get(0), Some(&6));
}

#[test]
fn equality_and_order_go_by_elements() {
    let mut consed: VList<usize> = VList::new();
    for i in (0..9usize).rev() {
        consed.cons_mut(i);
    }
    let built: VList<usize> = VList::from_vec(range(0, 9));
    assert_eq!(consed, built);
    assert!(consed <= built);
    assert!(VList::from_vec(vec![1, 2]) < VList::from_vec(vec![1, 2, 0]));
    assert!(VList::from_vec(vec![2]) > VList::from_vec(vec![1, 2, 0]));
    assert!(VList::from_vec(vec![1, 2]) != VList::from_vec(vec![1, 3]));
    assert!(VList::<usize>::new() == VList::from_vec(vec![]));
    assert!(VList::<usize>::new() < VList::from_vec(vec![0]));
}

#[test]
fn zero_parameters_count_as_one() {
    let mut list: GenericList<usize, 0, 0> = GenericList::from_vec(range(0, 5));
    assert_eq!(shown(&list), range(0, 5));
    list.cons_mut(9);
    list.push_back(10);
    assert_eq!(shown(&list), vec![9, 0, 1, 2, 3, 4, 10]);
    assert_eq!(list.pop_front(), Some(9));
}

#[test]
fn pointer_families_share_and_copy() {
    let mut first = <RcPointer as PointerFamily<Vec<usize>>>::new(vec![1, 2]);
    assert_eq!(<RcPointer as PointerFamily<Vec<usize>>>::strong_count(&first), 1);
    let second = <RcPointer as PointerFamily<Vec<usize>>>::clone(&first);
    assert_eq!(<RcPointer as PointerFamily<Vec<usize>>>::strong_count(&first), 2);
    assert!(<RcPointer as PointerFamily<Vec<usize>>>::ptr_eq(&first, &second));
    assert!(<RcPointer as PointerFamily<Vec<usize>>>::get_mut(&mut first).is_none());
    <RcPointer as PointerFamily<Vec<usize>>>::make_mut(&mut first).push(3);
    assert_eq!(*first, vec![1, 2, 3]);
    assert_eq!(*second, vec![1, 2]);
    assert!(!<RcPointer as PointerFamily<Vec<usize>>>::ptr_eq(&first, &second));
    <RcPointer as PointerFamily<Vec<usize>>>::get_mut(&mut first).unwrap().push(4);
    assert_eq!(*first, vec![1, 2, 3, 4]);
    assert_eq!(<RcPointer as PointerFamily<Vec<usize>>>::try_unwrap(first), Some(vec![1, 2, 3, 4]));
    let third = <RcPointer as PointerFamily<Vec<usize>>>::clone(&second);
    assert_eq!(<RcPointer as PointerFamily<Vec<usize>>>::try_unwrap(second), None);
    assert_eq!(*third, vec![1, 2]);

    let mut first = <ArcPointer as PointerFamily<Vec<usize>>>::new(vec![1, 2]);
    let second = <ArcPointer as PointerFamily<Vec<usize>>>::clone(&first);
    assert_eq!(<ArcPointer as PointerFamily<Vec<usize>>>::strong_count(&first), 2);
    assert!(<ArcPointer as PointerFamily<Vec<usize>>>::ptr_eq(&first, &second));
    assert!(<ArcPointer as PointerFamily<Vec<usize>>>::get_mut(&mut first).is_none());
    <ArcPointer as PointerFamily<Vec<usize>>>::make_mut(&mut first).push(3);
    assert_eq!(*first, vec![1, 2, 3]);
    assert_eq!(*second, vec![1, 2]);
    <ArcPointer as PointerFamily<Vec<usize>>>::get_mut(&mut first).unwrap().push(4);
    assert_eq!(<ArcPointer as PointerFamily<Vec<usize>>>::try_unwrap(first), Some(vec![1, 2, 3, 4]));
    let third = <ArcPointer as PointerFamily<Vec<usize>>>::clone(&second);
    assert_eq!(<ArcPointer as PointerFamily<Vec<usize>>>::try_unwrap(second), None);
    assert_eq!(*third, vec![1, 2]);
}

#[test]
fn addresses_follow_sharing() {
    let list: UnrolledList<usize, 256, 1> = UnrolledList::from_vec(range(0, 10));
    let copy = list.clone();
    assert_eq!(list.as_ptr_usize(), copy.as_ptr_usize());
    assert_eq!(list.elements_as_ptr_usize(), copy.elements_as_ptr_usize());
    assert!(list.shared_ptr_eq(&copy));
    let rest = list.cdr().unwrap();
    assert_ne!(rest.as_ptr_usize(), list.as_ptr_usize());
    assert_eq!(rest.elements_as_ptr_usize(), list.elements_as_ptr_usize());
    assert!(!rest.shared_ptr_eq(&list));
    assert!(rest.cdr_exists());
    let other: UnrolledList<usize, 256, 1> = UnrolledList::from_vec(range(0, 10));
    assert_ne!(other.as_ptr_usize(), list.as_ptr_usize());
    assert!(!other.shared_ptr_eq(&list));
    assert!(!UnrolledList::<usize, 256, 1>::from_vec(vec![1]).cdr_exists());
}
