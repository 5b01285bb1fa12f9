//! What holds of lists across operations, stated over their views.
//!
//! An operation that writes to a list may work on clones of the elements
//! where the list is shared, so its contract relates the views before and
//! after by [`clones_of`]. For element types whose clones are equal to the
//! originals, [`faithful_clone`], the laws below turn those relations into
//! equalities with the same operations on plain sequences.

use crate::model::{
    bucket_plan, clones_of, faithful_clone, grown, held, lemma_faithful_copy,
    lemma_grown_bounds,
};
use crate::sorting::rearranged;
use vstd::prelude::*;

verus! {

/// Reading a list that was built from `v` reads `v`: its length is `v`'s,
/// what `get` finds at `i` is `v`'s element there, or nothing where `v` is
/// not that long, and what `last` finds is `v`'s last element, or nothing
/// where `v` is empty.
pub proof fn law_built_reads<T>(
    v: Seq<T>,
    built: Seq<T>,
    len: usize,
    i: usize,
    got: Option<T>,
    last: Option<T>,
)
    requires
        built == v,
        len == built.len(),
        match got {
            Some(found) => i < built.len() && found == built[i as int],
            None => i >= built.len(),
        },
        match last {
            Some(found) => built.len() > 0 && found == built.last(),
            None => built.len() == 0,
        },
    ensures
        len == v.len(),
        i < v.len() ==> got == Some(v[i as int]),
        i >= v.len() ==> got is None,
        v.len() > 0 ==> last == Some(v.last()),
        v.len() == 0 ==> last is None,
{
}

/// The reverse of a list built from `v` shows `v` backwards.
pub proof fn law_reverse<T: Clone>(v: Seq<T>, built: Seq<T>, reversed: Seq<T>)
    requires
        faithful_clone::<T>(),
        built == v,
        clones_of(built.reverse(), reversed),
    ensures
        reversed == v.reverse(),
{
    lemma_faithful_copy(built.reverse(), reversed);
}

/// Reversing a list twice gives back the elements in their first order.
pub proof fn law_reverse_twice<T: Clone>(v: Seq<T>, once: Seq<T>, twice: Seq<T>)
    requires
        faithful_clone::<T>(),
        clones_of(v.reverse(), once),
        clones_of(once.reverse(), twice),
    ensures
        twice == v,
{
    lemma_faithful_copy(v.reverse(), once);
    lemma_faithful_copy(once.reverse(), twice);
    assert(v.reverse().reverse() =~= v);
}

/// The first `k` elements of a list are those of its view, all of them
/// where the list is no longer than `k`.
pub proof fn law_take<T: Clone>(v: Seq<T>, k: int, taken: Seq<T>)
    requires
        faithful_clone::<T>(),
        0 <= k,
        k >= v.len() ==> clones_of(v, taken),
        k < v.len() ==> clones_of(v.take(k), taken),
    ensures
        taken == v.take(if k <= v.len() { k } else { v.len() as int }),
{
    if k >= v.len() {
        lemma_faithful_copy(v, taken);
        assert(v.take(v.len() as int) =~= v);
    } else {
        lemma_faithful_copy(v.take(k), taken);
    }
}

/// The list without its first `k` elements shows the rest of its view, and
/// there is no such list just when the list has fewer than `k` elements.
pub proof fn law_tail<T>(v: Seq<T>, k: usize, tail: Option<Seq<T>>)
    requires
        match tail {
            Some(rest) => k <= v.len() && rest == v.skip(k as int),
            None => k > v.len(),
        },
    ensures
        k <= v.len() ==> tail == Some(v.skip(k as int)),
        k > v.len() ==> tail is None,
{
}

/// A list cut into its first `k` elements and the rest is the list again.
pub proof fn law_take_tail<T: Clone>(v: Seq<T>, k: int, taken: Seq<T>, rest: Seq<T>)
    requires
        faithful_clone::<T>(),
        0 <= k <= v.len(),
        k >= v.len() ==> clones_of(v, taken),
        k < v.len() ==> clones_of(v.take(k), taken),
        rest == v.skip(k),
    ensures
        taken + rest == v,
{
    law_take(v, k, taken);
    assert(v.take(k) + v.skip(k) =~= v);
}

/// Appending the list built from `b` to the one built from `a` shows what
/// the list built from `a` followed by `b` shows.
pub proof fn law_append<T: Clone>(a: Seq<T>, b: Seq<T>, appended: Seq<T>, built: Seq<T>)
    requires
        faithful_clone::<T>(),
        clones_of(a + b, appended),
        built == a + b,
    ensures
        appended == built,
        appended.len() == a.len() + b.len(),
{
    lemma_faithful_copy(a + b, appended);
}

/// Appending is associative on what the lists show.
pub proof fn law_append_assoc<T: Clone>(
    a: Seq<T>,
    b: Seq<T>,
    c: Seq<T>,
    ab: Seq<T>,
    bc: Seq<T>,
    left: Seq<T>,
    right: Seq<T>,
)
    requires
        faithful_clone::<T>(),
        clones_of(a + b, ab),
        clones_of(b + c, bc),
        clones_of(ab + c, left),
        clones_of(a + bc, right),
    ensures
        left == right,
{
    lemma_faithful_copy(a + b, ab);
    lemma_faithful_copy(b + c, bc);
    lemma_faithful_copy(ab + c, left);
    lemma_faithful_copy(a + bc, right);
    assert((a + b) + c =~= a + (b + c));
}

/// One change to a list, as a change to a plain sequence.
pub enum Action<T> {
    /// Put a value in front.
    Cons(T),
    /// Drop the first element; a list of one element or none becomes empty.
    Cdr,
    /// Put the elements of another list behind.
    Append(Seq<T>),
    /// Put a value behind.
    PushBack(T),
    /// Take the first element off, if there is one.
    PopFront,
    /// Turn the order around.
    Reverse,
}

/// What `action` makes of the sequence `s`.
pub open spec fn apply<T>(action: Action<T>, s: Seq<T>) -> Seq<T> {
    match action {
        Action::Cons(value) => seq![value] + s,
        Action::Cdr => if s.len() >= 1 {
            s.skip(1)
        } else {
            s
        },
        Action::Append(other) => s + other,
        Action::PushBack(value) => s.push(value),
        Action::PopFront => if s.len() >= 1 {
            s.skip(1)
        } else {
            s
        },
        Action::Reverse => s.reverse(),
    }
}

/// What the contract of the list operation for `action` says of the views
/// before and after it, `cdr` with nothing returned read as the empty list.
pub open spec fn performed<T: Clone>(action: Action<T>, before: Seq<T>, after: Seq<T>) -> bool {
    match action {
        Action::Cons(value) => {
            &&& after.len() == before.len() + 1
            &&& after[0] == value
            &&& clones_of(before, after.skip(1))
        },
        Action::Cdr => if before.len() >= 2 {
            after == before.skip(1)
        } else {
            after.len() == 0
        },
        Action::Append(other) => clones_of(before + other, after),
        Action::PushBack(value) => clones_of(before.push(value), after),
        Action::PopFront => if before.len() >= 1 {
            clones_of(before.skip(1), after)
        } else {
            after.len() == 0
        },
        Action::Reverse => clones_of(before.reverse(), after),
    }
}

/// What a row of actions makes of `s`, the first action first.
pub open spec fn run<T>(actions: Seq<Action<T>>, s: Seq<T>) -> Seq<T>
    decreases actions.len(),
{
    if actions.len() == 0 {
        s
    } else {
        apply(actions.last(), run(actions.drop_last(), s))
    }
}

/// A list operation changes the view as its action changes a sequence.
pub proof fn law_action<T: Clone>(action: Action<T>, before: Seq<T>, after: Seq<T>)
    requires
        faithful_clone::<T>(),
        performed(action, before, after),
    ensures
        after == apply(action, before),
{
    match action {
        Action::Cons(value) => {
            lemma_faithful_copy(before, after.skip(1));
            assert(after =~= seq![value] + before);
        },
        Action::Cdr => {
            if before.len() < 2 {
                assert(after =~= apply(action, before));
            }
        },
        Action::Append(other) => {
            lemma_faithful_copy(before + other, after);
        },
        Action::PushBack(value) => {
            lemma_faithful_copy(before.push(value), after);
        },
        Action::PopFront => {
            if before.len() >= 1 {
                lemma_faithful_copy(before.skip(1), after);
            } else {
                assert(after =~= before);
            }
        },
        Action::Reverse => {
            lemma_faithful_copy(before.reverse(), after);
        },
    }
}

/// Whatever row of operations is performed on a list, in whatever order,
/// the list shows in the end what the same actions make of the sequence it
/// showed at the start. `views` holds the view before each operation and,
/// last, the view after all of them.
pub proof fn law_actions<T: Clone>(actions: Seq<Action<T>>, views: Seq<Seq<T>>)
    requires
        faithful_clone::<T>(),
        views.len() == actions.len() + 1,
        forall|i: int|
            0 <= i < actions.len() ==> performed(#[trigger] actions[i], views[i], views[i + 1]),
    ensures
        views.last() == run(actions, views[0]),
    decreases actions.len(),
{
    if actions.len() > 0 {
        let n = actions.len() as int;
        let front = actions.drop_last();
        let seen = views.drop_last();
        assert forall|i: int| 0 <= i < front.len() implies performed(
            #[trigger] front[i],
            seen[i],
            seen[i + 1],
        ) by {
            assert(performed(actions[i], views[i], views[i + 1]));
        }
        law_actions(front, seen);
        assert(performed(actions[n - 1], views[n - 1], views[n]));
        law_action(actions.last(), views[n - 1], views[n]);
    }
}

/// The capacity of the `level`-th bucket from the end of a list whose last
/// bucket has capacity `size`.
pub open spec fn level_size(size: usize, g: usize, level: nat) -> usize
    decreases level,
{
    if level == 0 {
        size
    } else {
        grown(level_size(size, g, (level - 1) as nat), g)
    }
}

/// In a list built from a vector, the `level`-th bucket from the end has
/// the capacity that `level` growth steps make of the first capacity. It
/// holds at least one element and no more than its capacity, and every
/// bucket but the first of the list is full.
pub proof fn law_plan_sizes(size: usize, g: usize, length: nat, level: int)
    requires
        size >= 1,
        0 <= level < bucket_plan(size, g, length).len(),
    ensures
        bucket_plan(size, g, length)[level].0 == level_size(size, g, level as nat),
        1 <= bucket_plan(size, g, length)[level].1 <= bucket_plan(size, g, length)[level].0,
        level + 1 < bucket_plan(size, g, length).len() ==> bucket_plan(size, g, length)[level].1
            == bucket_plan(size, g, length)[level].0,
    decreases length,
{
    lemma_grown_bounds(size, g);
    if length > size {
        let rest = bucket_plan(grown(size, g), g, (length - size) as nat);
        assert(bucket_plan(size, g, length) == seq![(size, size)] + rest);
        if level > 0 {
            law_plan_sizes(grown(size, g), g, (length - size) as nat, level - 1);
            lemma_level_shift(size, g, (level - 1) as nat);
        } else {
            assert(rest.len() > 0) by {
                lemma_plan_nonempty(grown(size, g), g, (length - size) as nat);
            }
        }
    }
}

proof fn lemma_plan_nonempty(size: usize, g: usize, length: nat)
    requires
        size >= 1,
        length >= 1,
    ensures
        bucket_plan(size, g, length).len() >= 1,
{
}

proof fn lemma_level_shift(size: usize, g: usize, level: nat)
    ensures
        level_size(grown(size, g), g, level) == level_size(size, g, level + 1),
    decreases level,
{
    if level > 0 {
        lemma_level_shift(size, g, (level - 1) as nat);
        assert(level_size(size, g, level + 1) == grown(level_size(size, g, level), g));
        assert(level_size(grown(size, g), g, level) == grown(
            level_size(grown(size, g), g, (level - 1) as nat),
            g,
        ));
    } else {
        assert(level_size(size, g, 1) == grown(level_size(size, g, 0), g));
    }
}

/// The buckets planned for `length` elements hold `length` elements.
pub proof fn law_plan_total(size: usize, g: usize, length: nat)
    requires
        size >= 1,
    ensures
        held(bucket_plan(size, g, length)) == length,
    decreases length,
{
    let plan = bucket_plan(size, g, length);
    if length == 0 {
    } else if length <= size {
        assert(plan.skip(1) =~= Seq::<(usize, usize)>::empty());
        assert(held(plan.skip(1)) == 0);
    } else {
        lemma_grown_bounds(size, g);
        let rest = bucket_plan(grown(size, g), g, (length - size) as nat);
        law_plan_total(grown(size, g), g, (length - size) as nat);
        assert(plan.skip(1) =~= rest);
    }
}

/// A sorted list holds the elements it held before.
pub proof fn law_sort_keeps_elements<T: Clone>(before: Seq<T>, after: Seq<T>)
    requires
        faithful_clone::<T>(),
        rearranged(before, after),
    ensures
        after.to_multiset() == before.to_multiset(),
        after.len() == before.len(),
{
    let copy = choose|copy: Seq<T>| #[trigger]
        clones_of(before, copy) && copy.to_multiset() == after.to_multiset();
    lemma_faithful_copy(before, copy);
    before.to_multiset_ensures();
    after.to_multiset_ensures();
}

} // verus!
