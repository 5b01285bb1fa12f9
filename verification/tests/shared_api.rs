use im_lists::shared_list::{SharedList, SharedVList};
use im_lists::shared_unrolled::SharedUnrolledList;

type Shared<T> = SharedList<T, 256, 1>;

fn shared(items: Vec<usize>) -> Shared<usize> {
    Shared::from_vec(items)
}

fn shown<const N: usize, const G: usize>(list: &SharedList<usize, N, G>) -> Vec<usize> {
    let mut out = Vec::new();
    let mut cursor = list.iter();
    while let Some(item) = cursor.next() {
        out.push(*item);
    }
    out
}

fn crosses_threads<T: Send + Sync>(_: &T) {}

#[test]
fn shared_lists_cross_threads() {
    let list = shared(vec![1, 2, 3]);
    crosses_threads(&list);
    let doubling: SharedVList<String> = SharedVList::from_vec(vec![String::from("a")]);
    crosses_threads(&doubling);
    let core: SharedUnrolledList<usize, 4, 2> = SharedUnrolledList::from_vec(vec![1, 2, 3]);
    crosses_threads(&core);
}

#[test]
fn shared_strong_count() {
    let list: Shared<usize> = Shared::new();
    assert_eq!(list.strong_count(), 1);
    let copy = list.clone();
    assert_eq!(list.strong_count(), 2);
    assert!(list.ptr_eq(&copy));
}

#[test]
fn shared_reads() {
    let list = shared(vec![1, 2, 3, 4, 5, 6, 7, 8, 9, 10]);
    assert_eq!(list.len(), 10);
    assert_eq!(list.last().cloned(), Some(10));
    assert_eq!(list.car(), Some(1));
    assert_eq!(list.first().cloned(), Some(1));
    assert_eq!(list.get(3).cloned(), Some(4));
    assert!(list.get(1000).is_none());
    assert!(!list.is_empty());
    assert_eq!(list[9], 10);
    let empty: Shared<usize> = shared(vec![]);
    assert!(empty.car().is_none());
    assert!(empty.first().is_none());
    assert!(empty.last().is_none());
    assert!(empty.is_empty());
}

#[test]
fn shared_cdr_and_rest() {
    let list = shared(vec![1, 2, 3, 4, 5]);
    assert_eq!(list.cdr().unwrap(), shared(vec![2, 3, 4, 5]));
    assert_eq!(list.rest().unwrap(), shared(vec![2, 3, 4, 5]));
    assert!(shared(vec![5]).cdr().is_none());

    let mut short = shared(vec![1, 2, 3]);
    assert!(short.cdr_mut().is_some());
    assert_eq!(short, shared(vec![2, 3]));
    assert!(short.rest_mut().is_some());
    assert_eq!(short, shared(vec![3]));
    assert!(short.cdr_mut().is_none());
    assert_eq!(short, shared(vec![]));
}

#[test]
fn shared_front_and_back() {
    let built = Shared::cons(1, Shared::cons(2, Shared::cons(3, Shared::cons(4, Shared::new()))));
    assert_eq!(built, shared(vec![1, 2, 3, 4]));

    let mut list = shared(vec![]);
    list.cons_mut(3);
    list.cons_mut(2);
    list.push_front(1);
    list.push_front(0);
    list.push_back(4);
    assert_eq!(list, shared(vec![0, 1, 2, 3, 4]));
    assert_eq!(list.pop_front(), Some(0));
    assert_eq!(list.pop_front(), Some(1));
    assert_eq!(shown(&list), vec![2, 3, 4]);
}

#[test]
fn shared_whole_list_operations() {
    let list = shared((0..600).collect());
    assert_eq!(shown(&list.clone().reverse()), (0..600).rev().collect::<Vec<usize>>());
    assert_eq!(shown(&list.take(300)), (0..300).collect::<Vec<usize>>());
    assert_eq!(shown(&list.tail(300).unwrap()), (300..600).collect::<Vec<usize>>());
    assert!(list.tail(601).is_none());
    let both = list.clone().append(shared((600..700).collect()));
    assert_eq!(shown(&both), (0..700).collect::<Vec<usize>>());
    let mut grown = list.clone();
    grown.append_mut(shared(vec![1, 2]));
    grown.extend(vec![3]);
    assert_eq!(grown.len(), 603);
    assert_eq!(shown(&(shared(vec![1]) + shared(vec![2]))), vec![1, 2]);
    assert_eq!(
        shown(&Shared::sum(vec![shared(vec![1]), shared(vec![2, 3]), shared(vec![])])),
        vec![1, 2, 3]
    );
    assert_eq!(shown(&list), (0..600).collect::<Vec<usize>>());
}

#[test]
fn shared_sort() {
    let mut list = shared(vec![5, 4, 3, 2, 1]);
    list.sort();
    assert_eq!(list, shared(vec![1, 2, 3, 4, 5]));
    let mut list = shared(vec![1, 3, 2]);
    list.sort_by(|a, b| b.cmp(a));
    assert_eq!(list, shared(vec![3, 2, 1]));
}

#[test]
fn shared_clone_is_not_changed_through_the_other() {
    let original = shared((0..1000).collect());
    let mut copy = original.clone();
    copy.cons_mut(999999);
    assert_eq!(shown(&original), (0..1000).collect::<Vec<usize>>());
    assert_eq!(copy.len(), 1001);
    assert_eq!(copy.get(0), Some(&999999));
    assert_eq!(original.strong_count(), 1);
    let again = original.clone();
    assert_eq!(original.strong_count(), 2);
    drop(again);
    drop(copy);
    assert_eq!(original.strong_count(), 1);
}

#[test]
fn shared_doubling_layout() {
    let list: SharedUnrolledList<usize, 2, 2> = SharedUnrolledList::from_vec((1..21).collect());
    assert_eq!(list.cell_count(), 4);
    assert_eq!(list.index(), 6);
    assert_eq!(list.tail(6).unwrap().index(), 8);
    assert!(list.assert_invariants());
    let mut consumed = Vec::new();
    let mut cursor = list.into_iter();
    while let Some(item) = cursor.next() {
        consumed.push(item);
    }
    assert_eq!(consumed, (1..21).collect::<Vec<usize>>());
}

#[test]
fn shared_draining() {
    let list: SharedUnrolledList<usize, 4, 1> = SharedUnrolledList::from_vec((0..10).collect());
    let mut cursor = list.draining_iterator();
    let mut seen = Vec::new();
    while let Some(item) = cursor.next() {
        seen.push(item);
    }
    assert_eq!(seen, (0..10).collect::<Vec<usize>>());
}

#[test]
fn shared_long_chain_drops() {
    let list: SharedUnrolledList<usize, 1, 1> =
        SharedUnrolledList::from_vec((0..1_000_000).collect());
    assert_eq!(list.get(999_999), Some(&999_999));
    drop(list);
}

#[test]
fn shared_order_and_equality() {
    let l: SharedVList<usize> = SharedVList::from_vec(vec![0, 1, 2, 3, 4]);
    let r: SharedVList<usize> = SharedVList::from_vec(vec![1, 2, 3, 4, 5]);
    assert!(l < r);
    assert!(l != r);
    assert_eq!(l, SharedVList::from_slice(&[0, 1, 2, 3, 4]));
    let all = SharedVList::from_iter(vec![l.clone(), r.clone()]);
    assert_eq!(shown(&all), vec![0, 1, 2, 3, 4, 1, 2, 3, 4, 5]);
    let mut map = std::collections::HashMap::new();
    map.insert(l.clone(), 1usize);
    assert_eq!(map.get(&l), Some(&1));
}
