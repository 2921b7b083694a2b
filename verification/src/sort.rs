//! Merge sort of (index, coordinate) pairs by coordinate, ties by index.

use vstd::prelude::*;
use vstd::multiset::Multiset;
use crate::fixed::Fixed;

verus! {

/// Whether `a` may stand before `b`: its coordinate is smaller, or the
/// coordinates are equal and its index is not larger.
pub open spec fn precedes(a: (usize, Fixed), b: (usize, Fixed)) -> bool {
    a.1@ < b.1@ || (a.1@ == b.1@ && a.0 <= b.0)
}

/// Whether every element of `s` may stand before all that follow it.
pub open spec fn ordered(s: Seq<(usize, Fixed)>) -> bool {
    forall|i: int, j: int| 0 <= i < j < s.len() ==> precedes(#[trigger] s[i], #[trigger] s[j])
}

proof fn lemma_empty_multiset()
    ensures
        Seq::<(usize, Fixed)>::empty().to_multiset() == Multiset::<(usize, Fixed)>::empty(),
{
    let e = Seq::<(usize, Fixed)>::empty();
    vstd::seq_lib::to_multiset_len(e);
    vstd::multiset::lemma_multiset_empty_len(e.to_multiset());
    assert(e.to_multiset() =~= Multiset::<(usize, Fixed)>::empty());
}

fn goes_first(a: (usize, Fixed), b: (usize, Fixed)) -> (r: bool)
    ensures
        r == precedes(a, b),
{
    a.1.raw < b.1.raw || (a.1.raw == b.1.raw && a.0 <= b.0)
}

/// Merges two ordered runs into one.
fn merge(left: &Vec<(usize, Fixed)>, right: &Vec<(usize, Fixed)>) -> (out: Vec<(usize, Fixed)>)
    requires
        ordered(left@),
        ordered(right@),
        left.len() + right.len() <= usize::MAX,
    ensures
        ordered(out@),
        out@.to_multiset() == left@.to_multiset().add(right@.to_multiset()),
        out.len() == left.len() + right.len(),
{
    let mut out: Vec<(usize, Fixed)> = Vec::new();
    let mut i: usize = 0;
    let mut j: usize = 0;
    proof {
        lemma_empty_multiset();
        assert(left@.take(0) =~= Seq::empty());
        assert(right@.take(0) =~= Seq::empty());
        assert(out@ =~= Seq::empty());
        assert(out@.to_multiset() =~= left@.take(0).to_multiset().add(
            right@.take(0).to_multiset(),
        ));
    }
    while i < left.len() || j < right.len()
        invariant
            i <= left.len(),
            j <= right.len(),
            out.len() == i + j,
            left.len() + right.len() <= usize::MAX,
            ordered(left@),
            ordered(right@),
            ordered(out@),
            out@.to_multiset() == left@.take(i as int).to_multiset().add(
                right@.take(j as int).to_multiset(),
            ),
            forall|k: int|
                0 <= k < out.len() && i < left.len() ==> precedes(#[trigger] out@[k], left@[i as int]),
            forall|k: int|
                0 <= k < out.len() && j < right.len() ==> precedes(
                    #[trigger] out@[k],
                    right@[j as int],
                ),
        decreases left.len() - i + right.len() - j,
    {
        let take_left: bool = if i >= left.len() {
            false
        } else if j >= right.len() {
            true
        } else {
            goes_first(left[i], right[j])
        };
        let ghost before = out@;
        if take_left {
            let item = left[i];
            out.push(item);
            proof {
                assert(left@.take(i + 1) =~= left@.take(i as int).push(item));
                vstd::seq_lib::to_multiset_build(left@.take(i as int), item);
                vstd::seq_lib::to_multiset_build(before, item);
                assert(out@.to_multiset() =~= left@.take(i + 1).to_multiset().add(
                    right@.take(j as int).to_multiset(),
                ));
            }
            i += 1;
        } else {
            let item = right[j];
            out.push(item);
            proof {
                assert(right@.take(j + 1) =~= right@.take(j as int).push(item));
                vstd::seq_lib::to_multiset_build(right@.take(j as int), item);
                vstd::seq_lib::to_multiset_build(before, item);
                assert(out@.to_multiset() =~= left@.take(i as int).to_multiset().add(
                    right@.take(j + 1).to_multiset(),
                ));
            }
            j += 1;
        }
    }
    proof {
        assert(left@.take(i as int) =~= left@);
        assert(right@.take(j as int) =~= right@);
    }
    out
}

/// Sorts the part of `pairs` from `lo` up to `hi`.
fn sort_range(pairs: &Vec<(usize, Fixed)>, lo: usize, hi: usize) -> (out: Vec<(usize, Fixed)>)
    requires
        lo <= hi <= pairs.len(),
    ensures
        ordered(out@),
        out@.to_multiset() == pairs@.subrange(lo as int, hi as int).to_multiset(),
        out.len() == hi - lo,
    decreases hi - lo,
{
    if hi - lo <= 1 {
        let mut out: Vec<(usize, Fixed)> = Vec::new();
        if hi - lo == 1 {
            out.push(pairs[lo]);
        }
        proof {
            assert(out@ =~= pairs@.subrange(lo as int, hi as int));
        }
        out
    } else {
        let mid: usize = lo + (hi - lo) / 2;
        let left = sort_range(pairs, lo, mid);
        let right = sort_range(pairs, mid, hi);
        let out = merge(&left, &right);
        proof {
            let a = pairs@.subrange(lo as int, mid as int);
            let b = pairs@.subrange(mid as int, hi as int);
            assert(a + b =~= pairs@.subrange(lo as int, hi as int));
            vstd::seq_lib::lemma_multiset_commutative(a, b);
        }
        out
    }
}

/// The pairs of `pairs` in ascending order of coordinate, equal coordinates
/// in ascending order of index.
pub fn sort_pairs(pairs: &Vec<(usize, Fixed)>) -> (out: Vec<(usize, Fixed)>)
    ensures
        ordered(out@),
        out@.to_multiset() == pairs@.to_multiset(),
        out.len() == pairs.len(),
{
    let out = sort_range(pairs, 0, pairs.len());
    proof {
        assert(pairs@.subrange(0, pairs.len() as int) =~= pairs@);
    }
    out
}

} // verus!
