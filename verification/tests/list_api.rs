use im_lists::list::{GenericList, List, VList};
use std::ops::Add;

fn list(items: Vec<usize>) -> List<usize> {
    List::from_vec(items)
}

fn vlist(items: Vec<usize>) -> VList<usize> {
    VList::from_vec(items)
}

fn items<const N: usize, const G: usize>(list: &GenericList<usize, N, G>) -> Vec<usize> {
    let mut out = Vec::new();
    let mut cursor = list.iter();
    while let Some(item) = cursor.next() {
        out.push(*item);
    }
    out
}

#[test]
fn strong_count() {
    let list: List<usize> = List::new();
    assert_eq!(list.strong_count(), 1);
}

#[test]
fn ptr_eq() {
    let left: List<usize> = list(vec![1, 2, 3, 4, 5]);
    let right: List<usize> = list(vec![1, 2, 3, 4, 5]);

    assert!(!left.ptr_eq(&right));

    let left_clone: List<usize> = left.clone();
    assert!(left.ptr_eq(&left_clone))
}

#[test]
fn len() {
    let list = list(vec![1, 2, 3, 4, 5, 6, 7, 8, 9, 10]);
    assert_eq!(list.len(), 10);
}

#[test]
fn list_reverse() {
    let list = list(vec![1, 2, 3, 4, 5]).reverse();
    assert_eq!(list, List::from_vec(vec![5, 4, 3, 2, 1]));
}

#[test]
fn list_last() {
    let list = list(vec![1, 2, 3, 4, 5]);
    assert_eq!(list.last().cloned(), Some(5));
}

#[test]
fn car() {
    let full = list(vec![1, 2, 3, 4, 5]);
    let car = full.car();
    assert_eq!(car, Some(1));

    let empty: List<usize> = list(vec![]);
    let car = empty.car();
    assert!(car.is_none());
}

#[test]
fn first() {
    let full = list(vec![1, 2, 3, 4, 5]);
    let car = full.first();
    assert_eq!(car.cloned(), Some(1));

    let empty: List<usize> = list(vec![]);
    let car = empty.first();
    assert!(car.is_none());
}

#[test]
fn cdr() {
    let full = list(vec![1, 2, 3, 4, 5]);
    let cdr = full.cdr().unwrap();
    assert_eq!(cdr, list(vec![2, 3, 4, 5]));
    let single = list(vec![5]);
    let cdr = single.cdr();
    assert!(cdr.is_none());
}

#[test]
fn list_cdr_mut() {
    let mut long = list(vec![1, 2, 3, 4, 5]);
    long.cdr_mut().expect("This list has a tail");
    assert_eq!(long, list(vec![2, 3, 4, 5]));

    let mut short = list(vec![1, 2, 3]);
    assert!(short.cdr_mut().is_some());
    assert_eq!(short, list(vec![2, 3]));
    assert!(short.cdr_mut().is_some());
    assert_eq!(short, list(vec![3]));
    assert!(short.cdr_mut().is_none());
    assert_eq!(short, list(vec![]));
}

#[test]
fn rest_mut() {
    let mut long = list(vec![1, 2, 3, 4, 5]);
    long.rest_mut().expect("This list has a tail");
    assert_eq!(long, list(vec![2, 3, 4, 5]));

    let mut short = list(vec![1, 2, 3]);
    assert!(short.rest_mut().is_some());
    assert_eq!(short, list(vec![2, 3]));
    assert!(short.rest_mut().is_some());
    assert_eq!(short, list(vec![3]));
    assert!(short.rest_mut().is_none());
    assert_eq!(short, list(vec![]));
}

#[test]
fn cons() {
    let built = List::cons(1, List::cons(2, List::cons(3, List::cons(4, List::new()))));
    assert_eq!(built, list(vec![1, 2, 3, 4]));
}

#[test]
fn cons_mut() {
    let mut built = list(vec![]);
    built.cons_mut(3);
    built.cons_mut(2);
    built.cons_mut(1);
    built.cons_mut(0);
    assert_eq!(built, list(vec![0, 1, 2, 3]))
}

#[test]
fn push_front() {
    let mut built = list(vec![]);
    built.push_front(3);
    built.push_front(2);
    built.push_front(1);
    built.push_front(0);
    assert_eq!(built, list(vec![0, 1, 2, 3]))
}

#[test]
fn iter() {
    let ones = list(vec![1usize, 1, 1, 1, 1]);
    let mut cursor = ones.iter();
    let mut sum = 0usize;
    while let Some(item) = cursor.next() {
        sum += *item;
    }
    assert_eq!(sum, 5);
}

#[test]
fn get() {
    let list = list(vec![1, 2, 3, 4, 5]);
    assert_eq!(list.get(3).cloned(), Some(4));
    assert!(list.get(1000).is_none());
}

#[test]
fn list_append() {
    let left = list(vec![1usize, 2, 3]);
    let right = list(vec![4usize, 5, 6]);
    assert_eq!(left.append(right), list(vec![1, 2, 3, 4, 5, 6]))
}

#[test]
fn append_mut() {
    let mut left = list(vec![1usize, 2, 3]);
    let right = list(vec![4usize, 5, 6]);
    left.append_mut(right);
    assert_eq!(left, list(vec![1, 2, 3, 4, 5, 6]))
}

#[test]
fn is_empty() {
    let mut list: List<&str> = List::new();
    assert!(list.is_empty());
    list.cons_mut("applesauce");
    assert!(!list.is_empty());
}

#[test]
fn extend() {
    let mut left = list(vec![1usize, 2, 3]);
    let vec = vec![4, 5, 6];
    left.extend(vec);
    assert_eq!(left, list(vec![1, 2, 3, 4, 5, 6]))
}

#[test]
fn sort() {
    let mut unsorted = list(vec![5, 4, 3, 2, 1]);
    unsorted.sort();
    assert_eq!(unsorted, list(vec![1, 2, 3, 4, 5]));
}

#[test]
fn sort_by() {
    let mut unsorted = list(vec![5, 4, 3, 2, 1]);
    unsorted.sort_by(Ord::cmp);
    assert_eq!(unsorted, list(vec![1, 2, 3, 4, 5]));
}

#[test]
fn push_back() {
    let mut built = list(vec![]);
    built.push_back(0);
    built.push_back(1);
    built.push_back(2);
    assert_eq!(built, list(vec![0, 1, 2]));
}

#[test]
fn add() {
    let left = list(vec![1, 2, 3, 4, 5]);
    let right = list(vec![6, 7, 8, 9, 10]);

    assert_eq!(left + right, list(vec![1, 2, 3, 4, 5, 6, 7, 8, 9, 10]));
}

#[test]
fn sum() {
    let lists = vec![list(vec![1, 2, 3]), list(vec![4, 5, 6]), list(vec![7, 8, 9])];
    assert_eq!(List::sum(lists), list(vec![1, 2, 3, 4, 5, 6, 7, 8, 9]));
}

#[test]
fn list_take() {
    let whole = list(vec![0, 1, 2, 3, 4, 5]);
    let new_list = whole.take(3);
    assert_eq!(new_list, list(vec![0, 1, 2]));
}

#[test]
fn list_tail() {
    let whole = list(vec![0, 1, 2, 3, 4, 5]);
    let new_list = whole.tail(2);
    assert_eq!(new_list.unwrap(), list(vec![2, 3, 4, 5]));

    let no_list = whole.tail(100);
    assert!(no_list.is_none())
}

#[test]
fn list_indexing() {
    let list = vlist(vec![0, 1, 2, 3, 4, 5]);

    assert_eq!(4, list[4]);
}

#[test]
fn hash() {
    let mut map = std::collections::HashMap::new();

    map.insert(vlist(vec![0, 1, 2, 3, 4, 5]), "hello world!");

    assert_eq!(
        map.get(&vlist(vec![0, 1, 2, 3, 4, 5])).copied(),
        Some("hello world!")
    );
}

#[test]
fn addition() {
    let l = vlist(vec![0, 1, 2, 3, 4, 5]);
    let r = vlist(vec![6, 7, 8, 9, 10]);

    let combined = l.clone() + r.clone();

    assert_eq!(combined, vlist(vec![0, 1, 2, 3, 4, 5, 6, 7, 8, 9, 10]));

    let combined = l.add(r);

    assert_eq!(combined, vlist(vec![0, 1, 2, 3, 4, 5, 6, 7, 8, 9, 10]));
}

#[test]
fn from_slice() {
    let slice: &[usize] = &[0, 1, 2, 3, 4, 5];
    let list: VList<usize> = vlist(vec![0, 1, 2, 3, 4, 5]);

    assert_eq!(list, VList::from_slice(slice));
}

#[test]
#[should_panic]
fn index_out_of_bounds() {
    let list: VList<usize> = vlist(vec![0, 1, 2, 3, 4]);

    list[5];
}

#[test]
fn ordering() {
    let l: VList<usize> = vlist(vec![0, 1, 2, 3, 4]);
    let r: VList<usize> = vlist(vec![1, 2, 3, 4, 5]);

    assert!(l < r);
}

#[test]
fn from_iterator() {
    let lists = vec![
        vlist(vec![0, 1, 2, 3, 4]),
        vlist(vec![0, 1, 2, 3, 4]),
        vlist(vec![0, 1, 2, 3, 4]),
    ];

    let combined: VList<usize> = VList::from_iter(lists.clone());

    assert_eq!(
        combined,
        vlist(vec![0, 1, 2, 3, 4, 0, 1, 2, 3, 4, 0, 1, 2, 3, 4])
    );
    assert_eq!(items(&combined), vec![0, 1, 2, 3, 4, 0, 1, 2, 3, 4, 0, 1, 2, 3, 4]);
    assert_eq!(items(&lists[0]), vec![0, 1, 2, 3, 4]);
}

#[test]
fn hash_follows_elements_not_buckets() {
    let mut map = std::collections::HashMap::new();
    let mut built: VList<usize> = VList::new();
    for i in (0..6usize).rev() {
        built.cons_mut(i);
    }
    map.insert(built, 1usize);
    assert_eq!(map.get(&vlist(vec![0, 1, 2, 3, 4, 5])).copied(), Some(1));
}
