//! The sequence-level vocabulary that the list contracts are written in.

use vstd::prelude::*;

verus! {

/// `copy` has the length of `original`, and each of its elements is the
/// element of `original` at the same position or a clone of it.
pub open spec fn clones_of<T: Clone>(original: Seq<T>, copy: Seq<T>) -> bool {
    &&& original.len() == copy.len()
    &&& forall|i: int| 0 <= i < original.len() ==> cloned(#[trigger] original[i], copy[i])
}

/// Cloning a `T` always gives back an equal value.
pub open spec fn faithful_clone<T: Clone>() -> bool {
    forall|a: T, b: T| #[trigger] cloned(a, b) ==> a == b
}

/// The capacity of a list's first bucket: `n`, or 1 where `n` is 0.
pub open spec fn base_size(n: usize) -> usize {
    if n == 0 {
        1
    } else {
        n
    }
}

/// The factor between one bucket's capacity and the next: `g`, or 1 where
/// `g` is 0.
pub open spec fn growth_rate(g: usize) -> usize {
    if g == 0 {
        1
    } else {
        g
    }
}

/// The capacity of the bucket put in front of one of capacity `size`: `size`
/// times the growth rate, or the largest `usize` where that does not fit.
pub open spec fn grown(size: usize, g: usize) -> usize {
    if size * growth_rate(g) <= usize::MAX {
        (size * growth_rate(g)) as usize
    } else {
        usize::MAX
    }
}

/// How `length` elements are laid out in buckets, last bucket first: as
/// `(capacity, elements)` pairs whose capacities start at `size` and grow
/// from bucket to bucket, each bucket full but the one that takes what is
/// left.
pub open spec fn bucket_plan(size: usize, g: usize, length: nat) -> Seq<(usize, usize)>
    decreases length,
{
    if length == 0 || size == 0 {
        Seq::empty()
    } else if length <= size {
        seq![(size, length as usize)]
    } else {
        seq![(size, size)] + bucket_plan(grown(size, g), g, (length - size) as nat)
    }
}

/// The number of elements that the buckets of a plan hold between them.
pub open spec fn held(plan: Seq<(usize, usize)>) -> int
    decreases plan.len(),
{
    if plan.len() == 0 {
        0
    } else {
        plan[0].1 + held(plan.skip(1))
    }
}

/// The layout of a chain when a bucket comes in front of the chain laid
/// out as `behind`, as `(capacity, elements)` pairs: a bucket that shows
/// nothing is left out; a bucket whose elements fit the capacity of the one
/// behind it, beside that one's own, is merged with it into a bucket of the
/// larger of the two capacities; any other bucket stands in front as it is.
pub open spec fn merge_front(row: (usize, usize), behind: Seq<(usize, usize)>) -> Seq<
    (usize, usize),
> {
    if row.1 == 0 {
        behind
    } else if behind.len() > 0 && row.1 + behind[0].1 <= behind[0].0 {
        seq![
            (
                if row.0 > behind[0].0 {
                    row.0
                } else {
                    behind[0].0
                },
                (row.1 + behind[0].1) as usize,
            ),
        ] + behind.skip(1)
    } else {
        seq![row] + behind
    }
}

/// The layout of the chain made of a row of buckets, each merged with what
/// is behind it where [`merge_front`] says so, from the last bucket to the
/// first.
pub open spec fn coalesced(rows: Seq<(usize, usize)>) -> Seq<(usize, usize)>
    decreases rows.len(),
{
    if rows.len() == 0 {
        Seq::empty()
    } else {
        merge_front(rows[0], coalesced(rows.skip(1)))
    }
}

/// The layout of a chain without its first `k` elements, where it has more
/// than `k`: buckets that go as a whole are left out, and the bucket that
/// is cut shows `k` less of what is left.
pub open spec fn layout_skip(layout: Seq<(usize, usize)>, k: nat) -> Seq<(usize, usize)>
    decreases layout.len(),
{
    if layout.len() == 0 {
        layout
    } else if k < layout[0].1 {
        seq![(layout[0].0, (layout[0].1 - k) as usize)] + layout.skip(1)
    } else {
        layout_skip(layout.skip(1), (k - layout[0].1) as nat)
    }
}

/// The layout of the first `k` elements of a chain: the buckets that they
/// fill, and last the bucket that is cut, showing what is left of `k`.
pub open spec fn layout_take(layout: Seq<(usize, usize)>, k: nat) -> Seq<(usize, usize)>
    decreases layout.len(),
{
    if layout.len() == 0 || k == 0 {
        Seq::empty()
    } else if k < layout[0].1 {
        seq![(layout[0].0, k as usize)]
    } else {
        seq![layout[0]] + layout_take(layout.skip(1), (k - layout[0].1) as nat)
    }
}

/// The elements a bucket shows, head first: the first `cursor` slots of its
/// vector, read back to front.
pub open spec fn shown<T>(slots: Seq<T>, cursor: int) -> Seq<T> {
    slots.subrange(0, cursor).reverse()
}

/// Where clones are faithful, a copy is the original.
pub proof fn lemma_faithful_copy<T: Clone>(original: Seq<T>, copy: Seq<T>)
    requires
        faithful_clone::<T>(),
        clones_of(original, copy),
    ensures
        original == copy,
{
    assert(original =~= copy);
}

/// Every sequence is a copy of itself.
pub proof fn lemma_clones_refl<T: Clone>(s: Seq<T>)
    ensures
        clones_of(s, s),
{
}

/// Copies of two sequences concatenate to a copy of the concatenation.
pub proof fn lemma_clones_concat<T: Clone>(a: Seq<T>, a2: Seq<T>, b: Seq<T>, b2: Seq<T>)
    requires
        clones_of(a, a2),
        clones_of(b, b2),
    ensures
        clones_of(a + b, a2 + b2),
{
}

/// A range of a copy is a copy of the same range of the original.
pub proof fn lemma_clones_subrange<T: Clone>(a: Seq<T>, a2: Seq<T>, from: int, to: int)
    requires
        clones_of(a, a2),
        0 <= from <= to <= a.len(),
    ensures
        clones_of(a.subrange(from, to), a2.subrange(from, to)),
{
}

/// Reversing a copy gives a copy of the reversed original.
pub proof fn lemma_clones_reverse<T: Clone>(a: Seq<T>, a2: Seq<T>)
    requires
        clones_of(a, a2),
    ensures
        clones_of(a.reverse(), a2.reverse()),
{
}

/// The `i`-th element a bucket shows is the slot `i` places below its cursor.
pub proof fn lemma_shown_index<T>(slots: Seq<T>, cursor: int, i: int)
    requires
        0 <= i < cursor <= slots.len(),
    ensures
        shown(slots, cursor).len() == cursor,
        shown(slots, cursor)[i] == slots[cursor - 1 - i],
{
}

/// Pushing a slot at the cursor puts a new element in front of those shown.
pub proof fn lemma_shown_push<T>(slots: Seq<T>, value: T)
    ensures
        shown(slots.push(value), slots.len() as int + 1) == seq![value] + shown(slots, slots.len() as int),
{
    assert(shown(slots.push(value), slots.len() as int + 1) =~= seq![value] + shown(
        slots,
        slots.len() as int,
    ));
}

/// Slots above the cursor do not show.
pub proof fn lemma_shown_prefix<T>(slots: Seq<T>, cursor: int, keep: int)
    requires
        0 <= cursor <= keep <= slots.len(),
    ensures
        shown(slots.subrange(0, keep), cursor) == shown(slots, cursor),
{
    assert(slots.subrange(0, keep).subrange(0, cursor) =~= slots.subrange(0, cursor));
}

/// Moving the cursor down by `k` drops the first `k` elements shown.
pub proof fn lemma_shown_skip<T>(slots: Seq<T>, cursor: int, k: int)
    requires
        0 <= k <= cursor <= slots.len(),
    ensures
        shown(slots, cursor - k) == shown(slots, cursor).skip(k),
{
    assert(shown(slots, cursor - k) =~= shown(slots, cursor).skip(k));
}

/// A clone of a vector is a copy of its elements.
pub proof fn lemma_cloned_vec<T: Clone>(original: &Vec<T>, copy: &Vec<T>)
    requires
        cloned(*original, *copy),
    ensures
        clones_of(original@, copy@),
{
}

/// Cutting the slots above the cursor and pushing one more shows the new
/// element in front of those shown before.
pub proof fn lemma_shown_cut_push<T>(slots: Seq<T>, cursor: int, value: T)
    requires
        0 <= cursor <= slots.len(),
    ensures
        shown(slots.subrange(0, cursor).push(value), cursor + 1) == seq![value] + shown(
            slots,
            cursor,
        ),
{
    lemma_shown_push(slots.subrange(0, cursor), value);
    lemma_shown_prefix(slots, cursor, cursor);
}

/// With no slot above the cursor, reversing the slots reverses what shows.
pub proof fn lemma_shown_reverse<T>(slots: Seq<T>)
    ensures
        shown(slots.reverse(), slots.len() as int) == shown(slots, slots.len() as int).reverse(),
{
    assert(shown(slots.reverse(), slots.len() as int) =~= shown(
        slots,
        slots.len() as int,
    ).reverse());
}

/// Keeping the slots from `cursor - k` up to the cursor shows the first `k`
/// of the elements shown before.
pub proof fn lemma_shown_take<T>(slots: Seq<T>, cursor: int, k: int)
    requires
        0 <= k <= cursor <= slots.len(),
    ensures
        shown(slots.subrange(cursor - k, cursor), k) == shown(slots, cursor).take(k),
{
    assert(shown(slots.subrange(cursor - k, cursor), k) =~= shown(slots, cursor).take(k));
}

/// Reversal turns a concatenation around.
pub proof fn lemma_reverse_concat<T>(a: Seq<T>, b: Seq<T>)
    ensures
        (a + b).reverse() == b.reverse() + a.reverse(),
{
    assert((a + b).reverse() =~= b.reverse() + a.reverse());
}

/// A bucket's capacity never shrinks when it grows.
pub proof fn lemma_grown_bounds(size: usize, g: usize)
    ensures
        grown(size, g) >= size,
{
    assert(size * growth_rate(g) >= size) by (nonlinear_arith)
        requires
            growth_rate(g) >= 1,
    ;
}

/// Slots put behind others show in front of them.
pub proof fn lemma_shown_concat<T>(below: Seq<T>, above: Seq<T>)
    ensures
        shown(below + above, (below + above).len() as int) == shown(above, above.len() as int)
            + shown(below, below.len() as int),
{
    assert((below + above).subrange(0, (below + above).len() as int) =~= below + above);
    assert(below.subrange(0, below.len() as int) =~= below);
    assert(above.subrange(0, above.len() as int) =~= above);
    lemma_reverse_concat(below, above);
}

} // verus!
