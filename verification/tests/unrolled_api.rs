use im_lists::unrolled::{UnrolledCell, UnrolledList};

type RcList<T> = UnrolledList<T, 256, 1>;
type RcVList<T> = UnrolledList<T, 4, 2>;

fn build<const N: usize, const G: usize>(range: std::ops::Range<usize>) -> UnrolledList<usize, N, G> {
    UnrolledList::from_vec(range.collect())
}

fn drain<const N: usize, const G: usize>(list: UnrolledList<usize, N, G>) -> Vec<usize> {
    let mut out = Vec::new();
    let mut cursor = list.into_iter();
    while let Some(item) = cursor.next() {
        out.push(item);
    }
    out
}

#[test]
fn basic_iteration() {
    let list: RcList<usize> = build(0..100);
    let vec: Vec<usize> = (0..100usize).collect();

    assert_eq!(drain(list), vec);
}

#[test]
fn small() {
    let list: RcList<usize> = RcList::from_vec(vec![1, 2, 3, 4, 5, 6, 7, 8, 9]);
    assert_eq!(drain(list), (1..=9).collect::<Vec<usize>>());
}

#[test]
fn unrolled_append() {
    let mut left: RcList<usize> = RcList::from_vec(vec![1, 2, 3, 4, 5]);
    let right: RcList<usize> = RcList::from_vec(vec![6, 7, 8, 9, 10]);
    left = left.append(right.clone());
    assert!(left.assert_invariants());
    assert_eq!(drain(left), (1..=10).collect::<Vec<usize>>());
}

#[test]
fn append_large() {
    let mut left: RcList<usize> = build(0..60);
    let right: RcList<usize> = build(60..100);

    left = left.append(right);

    assert!(left.assert_invariants());

    assert_eq!(drain(left), (0..100).collect::<Vec<usize>>());
}

#[test]
fn check_size() {
    println!(
        "{}",
        std::mem::size_of::<UnrolledCell<usize, 256, 256>>()
    );
}

fn basic_construction_of<const N: usize, const G: usize>() {
    let list: UnrolledList<usize, N, G> = build(0..1000);
    let equivalent_vector: Vec<usize> = (0..1000).collect();

    for (left, right) in drain(list).into_iter().zip(equivalent_vector) {
        assert_eq!(left, right);
    }
}

#[test]
fn unrolled_basic_construction() {
    basic_construction_of::<256, 1>();
    basic_construction_of::<4, 2>();
}

fn iterates_all_elements_of<const N: usize, const G: usize>() {
    let list: UnrolledList<usize, N, G> = build(0..1000);
    let equivalent_vector: Vec<usize> = (0..1000).collect();

    assert_eq!(drain(list).len(), equivalent_vector.len());
}

#[test]
fn unrolled_iterates_all_elements() {
    iterates_all_elements_of::<256, 1>();
    iterates_all_elements_of::<4, 2>();
}

fn iterates_correct_amount_of<const N: usize, const G: usize>() {
    let count = 1000;
    let list: UnrolledList<usize, N, G> = build(0..count);

    assert_eq!(drain(list).len(), count)
}

#[test]
fn unrolled_iterates_correct_amount() {
    iterates_correct_amount_of::<256, 1>();
    iterates_correct_amount_of::<4, 2>();
}

#[test]
fn node_appending_coalescing_works() {
    const CAPACITY: usize = 256;
    let mut left: RcList<usize> = build(0..CAPACITY + 100);

    let right: RcList<usize> = build(CAPACITY + 100..CAPACITY + 500);

    left = left.append(right);

    assert_eq!(left.cell_count(), 4);

    assert_eq!(*left.get(300).unwrap(), 300);
    assert!(left.assert_invariants());
}

fn length_of<const N: usize, const G: usize>() {
    let list: UnrolledList<usize, N, G> = build(0..300);
    assert_eq!(list.len(), 300);
}

#[test]
fn unrolled_length() {
    length_of::<256, 1>();
    length_of::<4, 2>();
}

fn indexing_of<const N: usize, const G: usize>() {
    let list: UnrolledList<usize, N, G> = build(0..300);

    for i in 0..300 {
        assert_eq!(*list.get(i).unwrap(), i);
    }
}

#[test]
fn unrolled_indexing() {
    indexing_of::<256, 1>();
    indexing_of::<4, 2>();
}

fn cdr_iterative_of<const N: usize, const G: usize>() {
    let mut list: Option<UnrolledList<usize, N, G>> = Some(build(0..1000));
    let mut i = 0;

    while let Some(car) = list.as_ref().map(|x| x.car()).flatten() {
        assert_eq!(i, car);
        list = list.unwrap().cdr();
        i += 1;
    }
    assert_eq!(i, 1000);
}

#[test]
fn unrolled_cdr_iterative() {
    cdr_iterative_of::<256, 1>();
    cdr_iterative_of::<4, 2>();
}

fn cons_mut_new_node_of<const N: usize, const G: usize>() {
    let mut list: UnrolledList<usize, N, G> = build(0..N);

    assert_eq!(list.cell_count(), 1);

    list.cons_mut(1000);

    assert_eq!(list.cell_count(), 2);
}

#[test]
fn unrolled_cons_mut_new_node() {
    cons_mut_new_node_of::<256, 1>();
    cons_mut_new_node_of::<4, 2>();
}

fn cons_mut_list_of<const N: usize, const G: usize>() {
    let mut list: UnrolledList<usize, N, G> = UnrolledList::new();

    for i in (0..1000).rev() {
        list.cons_mut(i);
    }

    for i in 0..1000 {
        assert_eq!(i, *list.get(i).unwrap());
    }
}

#[test]
fn unrolled_cons_mut_list() {
    cons_mut_list_of::<256, 1>();
    cons_mut_list_of::<4, 2>();
}

fn empty_list_of<const N: usize, const G: usize>() {
    let list: UnrolledList<usize, N, G> = UnrolledList::from_vec(<Vec<usize>>::new());
    assert!(list.is_empty());
}

#[test]
fn unrolled_empty_list() {
    empty_list_of::<256, 1>();
    empty_list_of::<4, 2>();
}

fn cdr_works_successfully_of<const N: usize, const G: usize>() {
    let list: UnrolledList<usize, N, G> = UnrolledList::from_vec(vec![1, 2, 3, 4, 5]);

    let cdr = list.cdr().unwrap();

    let expected_cdr: UnrolledList<usize, N, G> = UnrolledList::from_vec(vec![2, 3, 4, 5]);

    assert_eq!(drain(cdr), drain(expected_cdr));
}

#[test]
fn unrolled_cdr_works_successfully() {
    cdr_works_successfully_of::<256, 1>();
    cdr_works_successfully_of::<4, 2>();
}

fn cdr_mut_of<const N: usize, const G: usize>() {
    let mut list: UnrolledList<usize, N, G> = UnrolledList::from_vec(vec![1, 2, 3usize]);
    assert!(list.cdr_mut().is_some());
    assert_eq!(list.len(), 2);
    assert!(list.cdr_mut().is_some());
    assert_eq!(list.len(), 1);
    assert!(list.cdr_mut().is_none());
    assert_eq!(list.len(), 0);
}

#[test]
fn unrolled_cdr_mut() {
    cdr_mut_of::<256, 1>();
    cdr_mut_of::<4, 2>();
}

fn reverse_of<const N: usize, const G: usize>() {
    let list: UnrolledList<usize, N, G> = build(0..500);
    let reversed = list.reverse();

    assert_eq!(drain(reversed), (0..500).rev().collect::<Vec<usize>>());
}

#[test]
fn unrolled_reverse() {
    reverse_of::<256, 1>();
    reverse_of::<4, 2>();
}

#[test]
fn unrolled_last() {
    let list: RcList<usize> = RcList::new();
    assert!(list.last().is_none());
    let list: RcVList<usize> = RcVList::new();
    assert!(list.last().is_none());
}

fn last_single_node_of<const N: usize, const G: usize>() {
    let list: UnrolledList<usize, N, G> =
        UnrolledList::from_vec(vec![1, 2, 3, 4, 5, 6, 7, 8, 9, 10]);
    assert_eq!(list.last().cloned(), Some(10));
}

#[test]
fn unrolled_last_single_node() {
    last_single_node_of::<256, 1>();
    last_single_node_of::<4, 2>();
}

fn last_multiple_nodes_of<const N: usize, const G: usize>() {
    let list: UnrolledList<usize, N, G> = build(0..2 * N);
    assert_eq!(list.last().cloned(), Some(N * 2 - 1))
}

#[test]
fn unrolled_last_multiple_nodes() {
    last_multiple_nodes_of::<256, 1>();
    last_multiple_nodes_of::<4, 2>();
}

#[test]
fn unrolled_take() {
    let list: RcList<usize> = build(0..2 * 256);
    let next = list.take(100);
    assert_eq!(drain(next), (0..100usize).collect::<Vec<usize>>());

    let list: RcVList<usize> = build(0..2 * 4 * 32);
    let next = list.take(100);
    assert_eq!(drain(next), (0..100usize).collect::<Vec<usize>>());
}

#[test]
fn unrolled_take_big() {
    let list: RcList<usize> = build(0..2 * 256);
    let next = list.take(256 + 100);
    assert_eq!(drain(next), (0..256 + 100usize).collect::<Vec<usize>>());

    let list: RcVList<usize> = build(0..2 * 4 * 32);
    let next = list.take(4 + 100);
    assert_eq!(drain(next), (0..4 + 100usize).collect::<Vec<usize>>());
}

#[test]
fn unrolled_tail() {
    let list: RcList<usize> = build(0..2 * 256);
    let next = list.tail(256 + 100).unwrap();
    assert_eq!(drain(next), (256 + 100usize..2 * 256).collect::<Vec<usize>>());

    let list: RcVList<usize> = build(0..2 * 4 * 32);
    let next = list.tail(4 + 100).unwrap();
    assert_eq!(drain(next), (4 + 100usize..2 * 4 * 32).collect::<Vec<usize>>());
}

fn tail_bigger_than_list_of<const N: usize, const G: usize>() {
    let list: UnrolledList<usize, N, G> = build(0..2 * N);
    let next = list.tail(N * 4);

    assert!(next.is_none())
}

#[test]
fn unrolled_tail_bigger_than_list() {
    tail_bigger_than_list_of::<256, 1>();
    tail_bigger_than_list_of::<4, 2>();
}

fn pop_front_of<const N: usize, const G: usize>() {
    let mut list: UnrolledList<usize, N, G> = UnrolledList::from_vec(vec![0, 1, 2, 3]);
    assert_eq!(list.pop_front().unwrap(), 0);
    assert_eq!(list.pop_front().unwrap(), 1);
    assert_eq!(list.pop_front().unwrap(), 2);
    assert_eq!(list.pop_front().unwrap(), 3);
    assert!(list.pop_front().is_none())
}

#[test]
fn unrolled_pop_front() {
    pop_front_of::<256, 1>();
    pop_front_of::<4, 2>();
}

fn pop_front_capacity_of<const N: usize, const G: usize>() {
    let mut list: UnrolledList<usize, N, G> = build(0..N);
    list.push_front(100);
    assert_eq!(list.cell_count(), 2);
    assert_eq!(list.pop_front().unwrap(), 100);
    assert_eq!(list.cell_count(), 1);
}

#[test]
fn unrolled_pop_front_capacity() {
    pop_front_capacity_of::<256, 1>();
    pop_front_capacity_of::<4, 2>();
}

fn append_big_of<const N: usize, const G: usize>() {
    let mut list: UnrolledList<usize, N, G> = build(0..3);
    let big_list: UnrolledList<usize, N, G> = build(0..N - 1);

    list.append_mut(big_list);
    let mut expected: Vec<usize> = (0..3).collect();
    expected.extend(0..N - 1);
    assert_eq!(drain(list), expected);
}

#[test]
fn unrolled_append_big() {
    append_big_of::<256, 1>();
    append_big_of::<4, 2>();
}

#[test]
fn appending_works_as_expected() {
    let mut list: RcVList<usize> = RcVList::from_vec(Vec::<usize>::new());

    list = list.append(RcVList::from_vec(vec![0, 0, 0, 0]));

    assert_eq!(list.cdr().unwrap().len(), 3);
}

#[test]
fn appending_works_as_expected_overflow() {
    let mut list: RcVList<usize> = RcVList::from_vec(Vec::<usize>::new());

    list = list.append(RcVList::from_vec(vec![0, 0, 0, 0, 0]));

    assert_eq!(list.cdr().unwrap().len(), 4);
}

#[test]
fn append_then_pop_front() {
    let mut list: UnrolledList<usize, 4, 4> = UnrolledList::from_vec(Vec::<usize>::new());

    list = list.append(UnrolledList::from_vec(vec![
        1, 0, 0, 0, 0, 0, 0, 0, 0, 0, 0, 0, 0, 0, 0, 0, 0, 0, 0, 0, 0,
    ]));

    list.pop_front();

    assert_eq!(list.len(), 20);
}

#[derive(Clone)]
enum Value {
    List(RcList<usize>),
}

fn function_call(args: &mut [Value]) -> Value {
    let arg2 = args[1].clone();
    let mut arg1 = &mut args[0];

    match (&mut arg1, arg2) {
        (Value::List(left), Value::List(right)) => {
            assert_eq!(left.strong_count(), 1);
            assert_eq!(right.strong_count(), 2);

            left.append_mut(right);

            assert_eq!(left.strong_count(), 1);
        }
    }

    arg1.clone()
}

#[test]
fn test_append() {
    let mut args = vec![
        Value::List(RcList::from_vec(vec![0, 1, 2, 3, 4, 5])),
        Value::List(RcList::from_vec(vec![6, 7, 8, 9, 10])),
    ];

    let Value::List(result) = function_call(args.as_mut_slice());

    assert_eq!(result.strong_count(), 2);

    // Drop everything from the stack
    args.clear();
    assert_eq!(result.strong_count(), 1);
}
