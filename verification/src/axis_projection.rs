//! A one-axis index that keeps, for every rank of the sorted order, the
//! range of ranks whose coordinates lie within a radius of it.

use vstd::prelude::*;
use crate::axis::{
    arrange, arranges, each_index_once, find_run, is_run, lemma_run_is_neighbourhood, run_of,
    within,
};
use crate::sort::ordered;
use crate::fixed::{abs_diff, Fixed};

verus! {

/// The bodies' coordinates on one axis, sorted, with the table from index to
/// rank and the range of near ranks of each rank.
pub struct AxisProjection {
    /// Pairs of index and coordinate; in ascending order once built.
    pub sorted: Vec<(usize, Fixed)>,
    /// For each index the rank of its pair, once built.
    pub map: Vec<usize>,
    /// For each rank the half-open range of ranks within the radius of it.
    pub ranges: Vec<(usize, usize)>,
    /// The number of bodies.
    pub length: usize,
}

impl AxisProjection {
    /// The table from index to rank.
    pub open spec fn ranks(&self) -> Seq<usize> {
        self.map@
    }

    /// The three tables have one entry for each body.
    pub open spec fn wf(&self) -> bool {
        &&& self.sorted@.len() == self.length
        &&& self.ranks().len() == self.length
        &&& self.ranges@.len() == self.length
    }

    /// The index was built from the pairs `source` with `radius`.
    pub open spec fn built_from(&self, source: Seq<(usize, Fixed)>, radius: Fixed) -> bool {
        &&& self.wf()
        &&& arranges(self.sorted@, self.ranks(), source)
        &&& forall|r: int|
            0 <= r < self.length ==> ((#[trigger] self.ranges@[r]).0 as int, self.ranges@[r].1 as int)
                == run_of(self.sorted@, r, radius)
        &&& forall|r: int|
            0 <= r < self.length ==> is_run(
                self.sorted@,
                r,
                radius,
                (#[trigger] self.ranges@[r]).0 as int,
                self.ranges@[r].1 as int,
            )
    }

    /// An index for `length` bodies, every entry zero.
    pub fn new(length: usize) -> (r: Self)
        ensures
            r.wf(),
            r.length == length,
            r.sorted@ == Seq::new(length as nat, |i: int| (0usize, Fixed::of(0))),
            r.ranks() == Seq::new(length as nat, |i: int| 0usize),
            r.ranges@ == Seq::new(length as nat, |i: int| (0usize, 0usize)),
    {
        let mut sorted: Vec<(usize, Fixed)> = Vec::new();
        let mut map: Vec<usize> = Vec::new();
        let mut ranges: Vec<(usize, usize)> = Vec::new();
        let mut i: usize = 0;
        while i < length
            invariant
                i <= length,
                sorted@ == Seq::new(i as nat, |k: int| (0usize, Fixed::of(0))),
                map@ == Seq::new(i as nat, |k: int| 0usize),
                ranges@ == Seq::new(i as nat, |k: int| (0usize, 0usize)),
            decreases length - i,
        {
            sorted.push((0, Fixed::zero()));
            map.push(0);
            ranges.push((0, 0));
            i += 1;
        }
        AxisProjection { sorted, map, ranges, length }
    }

    /// Stages `value` as the coordinate of body `index`.
    pub fn set(&mut self, index: usize, value: Fixed)
        requires
            old(self).wf(),
            index < old(self).length,
        ensures
            final(self).wf(),
            final(self).sorted@ == old(self).sorted@.update(index as int, (index, value)),
            final(self).ranks() == old(self).ranks(),
            final(self).ranges == old(self).ranges,
            final(self).length == old(self).length,
    {
        self.sorted.set(index, (index, value));
    }

    /// The rank of body `index`.
    pub fn src_to_proj(&mut self, index: usize) -> (rank: usize)
        requires
            old(self).wf(),
            index < old(self).length,
        ensures
            rank == old(self).ranks()[index as int],
            *final(self) == *old(self),
    {
        self.map[index]
    }

    /// The index of the body at `index` in the sorted order.
    pub fn proj_to_src(&mut self, index: usize) -> (source: usize)
        requires
            old(self).wf(),
            index < old(self).length,
        ensures
            source == old(self).sorted@[index as int].0,
            *final(self) == *old(self),
    {
        self.sorted[index].0
    }

    /// The range of near ranks kept for the rank `index`.
    pub fn get_range(&mut self, index: usize) -> (range: (usize, usize))
        requires
            old(self).wf(),
            index < old(self).length,
        ensures
            range == old(self).ranges@[index as int],
            *final(self) == *old(self),
    {
        self.ranges[index]
    }

    /// Sorts the pairs by coordinate, fills the table from index to rank,
    /// and computes for every rank the range of ranks within `radius` of
    /// it. The pairs must hold every index once, as they do when every
    /// body's coordinate has been set, or after an earlier build.
    pub fn build(&mut self, radius: Fixed)
        requires
            old(self).wf(),
            each_index_once(old(self).sorted@),
        ensures
            final(self).length == old(self).length,
            final(self).built_from(old(self).sorted@, radius),
            ordered(old(self).sorted@) ==> final(self).sorted@ == old(self).sorted@,
            forall|source: Seq<(usize, Fixed)>| #[trigger]
                old(self).built_from(source, radius) ==> final(self).sorted@ == old(self).sorted@
                    && final(self).ranks() == old(self).ranks() && final(self).ranges@ == old(
                    self,
                ).ranges@,
            forall|r: int|
                0 <= r && r + 1 < final(self).length ==> (#[trigger] final(self).sorted@[r]).1@
                    <= final(self).sorted@[r + 1].1@,
            forall|r: int, k: int|
                0 <= r < final(self).length && 0 <= k < final(self).length ==> ((
                final(self).ranges@[r].0 <= k < final(self).ranges@[r].1) <==> (k == r
                    || #[trigger] within(final(self).sorted@, k, r, radius))),
    {
        let ghost source = self.sorted@;
        arrange(&mut self.sorted, &mut self.map);
        let mut i: usize = 0;
        while i < self.length
            invariant
                i <= self.length,
                self.wf(),
                self.length == old(self).length,
                arranges(self.sorted@, self.ranks(), source),
                ordered(source) ==> self.sorted@ == source,
                forall|r: int|
                    0 <= r < i ==> is_run(
                        self.sorted@,
                        r,
                        radius,
                        (#[trigger] self.ranges@[r]).0 as int,
                        self.ranges@[r].1 as int,
                    ),
                forall|r: int|
                    0 <= r < i ==> ((#[trigger] self.ranges@[r]).0 as int, self.ranges@[r].1 as int)
                        == run_of(self.sorted@, r, radius),
            decreases self.length - i,
        {
            let run = self.find_ranges(i, radius);
            self.ranges.set(i, run);
            i += 1;
        }
        proof {
            assert forall|earlier: Seq<(usize, Fixed)>| #[trigger]
                old(self).built_from(earlier, radius) implies self.sorted@ == old(self).sorted@
                && self.ranks() == old(self).ranks() && self.ranges@ == old(self).ranges@ by {
                lemma_rebuild_changes_nothing(*old(self), *self, earlier, radius);
            }
            let s = self.sorted@;
            assert forall|r: int| 0 <= r && r + 1 < self.length implies (#[trigger] s[r]).1@ <= s[r
                + 1].1@ by {
                crate::axis::lemma_ordered_coordinates(s, r, r + 1);
            }
            assert forall|r: int, k: int| 0 <= r < self.length && 0 <= k < self.length implies ((
            self.ranges@[r].0 <= k < self.ranges@[r].1) <==> (k == r || #[trigger] within(
                s,
                k,
                r,
                radius,
            ))) by {
                lemma_run_is_neighbourhood(
                    s,
                    r,
                    radius,
                    self.ranges@[r].0 as int,
                    self.ranges@[r].1 as int,
                );
            }
        }
    }

    /// The range of ranks around `index` whose coordinates lie within
    /// `radius` of its own: scans outward both ways until the first that
    /// does not.
    pub fn find_ranges(&self, index: usize, radius: Fixed) -> (range: (usize, usize))
        requires
            self.sorted@.len() == self.length,
            index < self.length,
        ensures
            is_run(self.sorted@, index as int, radius, range.0 as int, range.1 as int),
            (range.0 as int, range.1 as int) == run_of(self.sorted@, index as int, radius),
    {
        find_run(&self.sorted, index, radius)
    }
}

/// Once built, the range kept for a body's rank holds the ranks of exactly
/// the bodies whose coordinate is within the radius of its own, and the
/// body's own rank. The bodies are those of the pairs at the positions `p`
/// and `q` of the pairs that the index was built from.
pub proof fn lemma_range_holds_neighbours(
    axis: AxisProjection,
    source: Seq<(usize, Fixed)>,
    radius: Fixed,
    p: int,
    q: int,
)
    requires
        each_index_once(source),
        axis.built_from(source, radius),
        0 <= p < source.len(),
        0 <= q < source.len(),
    ensures
        ({
            let range = axis.ranges@[axis.ranks()[source[p].0 as int] as int];
            let rank = axis.ranks()[source[q].0 as int];
            (range.0 <= rank < range.1) <==> (p == q || abs_diff(source[q].1@, source[p].1@)
                <= radius@)
        }),
{
    let s = axis.sorted@;
    let rp = axis.ranks()[source[p].0 as int] as int;
    let rq = axis.ranks()[source[q].0 as int] as int;
    let range = axis.ranges@[rp];
    assert(s[rp] == source[p]);
    assert(s[rq] == source[q]);
    assert(is_run(s, rp, radius, range.0 as int, range.1 as int));
    lemma_run_is_neighbourhood(s, rp, radius, range.0 as int, range.1 as int);
    assert(within(s, rq, rp, radius) <==> abs_diff(source[q].1@, source[p].1@) <= radius@);
}

/// A second build with the same radius, with no coordinate set in between,
/// leaves the sorted pairs, the table and the ranges as they are.
pub proof fn lemma_rebuild_changes_nothing(
    first: AxisProjection,
    second: AxisProjection,
    source: Seq<(usize, Fixed)>,
    radius: Fixed,
)
    requires
        first.built_from(source, radius),
        second.built_from(first.sorted@, radius),
        second.length == first.length,
    ensures
        second.sorted@ == first.sorted@,
        second.ranks() == first.ranks(),
        second.ranges@ == first.ranges@,
{
    crate::axis::lemma_ordered_is_unique(second.sorted@, first.sorted@);
    let s = first.sorted@;
    assert forall|i: int| 0 <= i < first.length implies second.ranks()[i] == first.ranks()[i] by {
        let r = first.ranks()[i] as int;
        assert(s[r].0 == i);
        assert(first.ranks()[s[r].0 as int] == r);
        assert(second.ranks()[s[r].0 as int] == r);
    }
    assert(second.ranks() =~= first.ranks());
    assert forall|r: int| 0 <= r < first.length implies second.ranges@[r] == first.ranges@[r] by {
        let a = first.ranges@[r];
        let b = second.ranges@[r];
        assert((a.0 as int, a.1 as int) == run_of(s, r, radius));
        assert((b.0 as int, b.1 as int) == run_of(s, r, radius));
    }
    assert(second.ranges@ =~= first.ranges@);
}

} // verus!
