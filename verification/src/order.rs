//! A stable merge sort of the rows of a record by their count.

use vstd::prelude::*;
use vstd::seq_lib::{lemma_multiset_commutative, to_multiset_build};
use crate::model::{ordered_by_count, precedes, Pair};

verus! {

/// The rows of `v` as mathematical pairs.
pub open spec fn rows_of(v: Seq<(&String, &i32)>) -> Seq<Pair> {
    v.map_values(|e: (&String, &i32)| (e.0@, *e.1 as int))
}

/// Whether the count `a` may stand before the count `b`.
fn in_order(a: i32, b: i32, rev: bool) -> (yes: bool)
    ensures
        yes == precedes(a as int, b as int, rev),
{
    if rev {
        a >= b
    } else {
        a <= b
    }
}

/// The rows of `v` from `from` up to `to`, in their order.
fn slice_of<'a>(v: &Vec<(&'a String, &'a i32)>, from: usize, to: usize) -> (part: Vec<
    (&'a String, &'a i32),
>)
    requires
        from <= to <= v@.len(),
    ensures
        part@ == v@.subrange(from as int, to as int),
{
    let mut part: Vec<(&'a String, &'a i32)> = Vec::new();
    let mut i: usize = from;
    while i < to
        invariant
            from <= i <= to <= v@.len(),
            part@ == v@.subrange(from as int, i as int),
        decreases to - i,
    {
        part.push(v[i]);
        assert(part@ =~= v@.subrange(from as int, i + 1));
        i += 1;
    }
    part
}

/// Merges two ordered runs into one. Where a row of `left` and a row of
/// `right` have the same count, the row of `left` comes first.
fn merge<'a>(left: &Vec<(&'a String, &'a i32)>, right: &Vec<(&'a String, &'a i32)>, rev: bool) -> (out:
    Vec<(&'a String, &'a i32)>)
    requires
        ordered_by_count(rows_of(left@), rev),
        ordered_by_count(rows_of(right@), rev),
        left@.len() + right@.len() <= usize::MAX,
    ensures
        out@.len() == left@.len() + right@.len(),
        ordered_by_count(rows_of(out@), rev),
        rows_of(out@).to_multiset() == rows_of(left@).to_multiset().add(
            rows_of(right@).to_multiset(),
        ),
{
    let ghost l = rows_of(left@);
    let ghost r = rows_of(right@);
    let mut out: Vec<(&'a String, &'a i32)> = Vec::new();
    let mut i: usize = 0;
    let mut j: usize = 0;
    assert(rows_of(out@).to_multiset() =~= l.take(0).to_multiset().add(r.take(0).to_multiset()))
        by {
        broadcast use vstd::seq_lib::group_to_multiset_ensures;

        assert(rows_of(out@) =~= Seq::<Pair>::empty());
        assert(l.take(0) =~= Seq::<Pair>::empty());
        assert(r.take(0) =~= Seq::<Pair>::empty());
        assert(Seq::<Pair>::empty().to_multiset().len() == 0);
    }
    while i < left.len() || j < right.len()
        invariant
            l == rows_of(left@),
            r == rows_of(right@),
            ordered_by_count(l, rev),
            ordered_by_count(r, rev),
            i <= left@.len(),
            j <= right@.len(),
            out@.len() == i + j,
            left@.len() + right@.len() <= usize::MAX,
            ordered_by_count(rows_of(out@), rev),
            rows_of(out@).to_multiset() == l.take(i as int).to_multiset().add(
                r.take(j as int).to_multiset(),
            ),
            forall|a: int|
                0 <= a < out@.len() && i < l.len() ==> precedes(
                    (#[trigger] rows_of(out@)[a]).1,
                    l[i as int].1,
                    rev,
                ),
            forall|a: int|
                0 <= a < out@.len() && j < r.len() ==> precedes(
                    (#[trigger] rows_of(out@)[a]).1,
                    r[j as int].1,
                    rev,
                ),
        decreases left@.len() - i + right@.len() - j,
    {
        let ghost before = rows_of(out@);
        let from_left = if i >= left.len() {
            false
        } else if j >= right.len() {
            true
        } else {
            in_order(*left[i].1, *right[j].1, rev)
        };
        if from_left {
            out.push(left[i]);
            proof {
                assert(rows_of(out@) =~= before.push(l[i as int]));
                assert(l.take(i + 1) =~= l.take(i as int).push(l[i as int]));
                to_multiset_build(before, l[i as int]);
                to_multiset_build(l.take(i as int), l[i as int]);
                assert(rows_of(out@).to_multiset() =~= l.take(i + 1).to_multiset().add(
                    r.take(j as int).to_multiset(),
                ));
                assert forall|a: int| 0 <= a < out@.len() && i + 1 < l.len() implies precedes(
                    (#[trigger] rows_of(out@)[a]).1,
                    l[i + 1].1,
                    rev,
                ) by {
                    assert(precedes(l[i as int].1, l[i + 1].1, rev));
                }
            }
            i += 1;
        } else {
            out.push(right[j]);
            proof {
                assert(rows_of(out@) =~= before.push(r[j as int]));
                assert(r.take(j + 1) =~= r.take(j as int).push(r[j as int]));
                to_multiset_build(before, r[j as int]);
                to_multiset_build(r.take(j as int), r[j as int]);
                assert(rows_of(out@).to_multiset() =~= l.take(i as int).to_multiset().add(
                    r.take(j + 1).to_multiset(),
                ));
                assert forall|a: int| 0 <= a < out@.len() && j + 1 < r.len() implies precedes(
                    (#[trigger] rows_of(out@)[a]).1,
                    r[j + 1].1,
                    rev,
                ) by {
                    assert(precedes(r[j as int].1, r[j + 1].1, rev));
                }
            }
            j += 1;
        }
    }
    assert(l.take(i as int) =~= l);
    assert(r.take(j as int) =~= r);
    out
}

/// Orders the rows of `v` by their count: rising, or with `rev` falling. The
/// result holds the rows of `v`, each as often as `v` does.
pub fn sort_by_count<'a>(v: Vec<(&'a String, &'a i32)>, rev: bool) -> (out: Vec<
    (&'a String, &'a i32),
>)
    ensures
        out@.len() == v@.len(),
        ordered_by_count(rows_of(out@), rev),
        rows_of(out@).to_multiset() == rows_of(v@).to_multiset(),
    decreases v@.len(),
{
    if v.len() <= 1 {
        return v;
    }
    let mid: usize = v.len() / 2;
    let left = slice_of(&v, 0, mid);
    let right = slice_of(&v, mid, v.len());
    proof {
        assert(v@ =~= left@ + right@);
        assert(rows_of(v@) =~= rows_of(left@) + rows_of(right@));
        lemma_multiset_commutative(rows_of(left@), rows_of(right@));
    }
    let left = sort_by_count(left, rev);
    let right = sort_by_count(right, rev);
    merge(&left, &right, rev)
}

} // verus!
