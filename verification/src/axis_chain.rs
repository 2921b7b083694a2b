//! A one-axis index that lists, for a rank of the sorted order, the bodies
//! whose coordinates lie within the radius of it.

use vstd::prelude::*;
use crate::axis::{
    arrange, arranges, chain_of, each_index_once, find_run, is_run, lemma_run_is_neighbourhood,
    run_of, within,
};
use crate::sort::ordered;
use crate::fixed::{abs_diff, Fixed};

verus! {

/// What an [`AxisChain`] holds.
pub struct AxisChainModel {
    /// The distance up to which two coordinates count as near.
    pub radius: Fixed,
    /// Pairs of index and coordinate; in ascending order once built.
    pub pairs: Seq<(usize, Fixed)>,
    /// For each index the rank of its pair, once built.
    pub ranks: Seq<usize>,
    /// The number of bodies.
    pub length: nat,
}

/// The bodies' coordinates on one axis, sorted, with the table from index to
/// rank and the radius within which bodies count as near.
pub struct AxisChain {
    radius: Fixed,
    pairs: Vec<(usize, Fixed)>,
    map: Vec<usize>,
    length: usize,
}

impl View for AxisChain {
    type V = AxisChainModel;

    closed spec fn view(&self) -> AxisChainModel {
        AxisChainModel {
            radius: self.radius,
            pairs: self.pairs@,
            ranks: self.map@,
            length: self.length as nat,
        }
    }
}

impl AxisChain {
    /// Both tables have one entry for each body.
    pub open spec fn wf(&self) -> bool {
        self@.pairs.len() == self@.length && self@.ranks.len() == self@.length
    }

    /// An index for `length` bodies with the given radius, every entry zero.
    pub fn new(radius: Fixed, length: usize) -> (r: Self)
        ensures
            r.wf(),
            r@.radius == radius,
            r@.length == length,
            r@.pairs == Seq::new(length as nat, |i: int| (0usize, Fixed::of(0))),
            r@.ranks == Seq::new(length as nat, |i: int| 0usize),
    {
        let mut pairs: Vec<(usize, Fixed)> = Vec::new();
        let mut map: Vec<usize> = Vec::new();
        let mut i: usize = 0;
        while i < length
            invariant
                i <= length,
                pairs@ == Seq::new(i as nat, |k: int| (0usize, Fixed::of(0))),
                map@ == Seq::new(i as nat, |k: int| 0usize),
            decreases length - i,
        {
            pairs.push((0, Fixed::zero()));
            map.push(0);
            i += 1;
        }
        AxisChain { radius, pairs, map, length }
    }

    /// Stages `value` as the coordinate of body `index`.
    pub fn set(&mut self, index: usize, value: Fixed)
        requires
            old(self).wf(),
            index < old(self)@.length,
        ensures
            final(self).wf(),
            final(self)@ == (AxisChainModel {
                pairs: old(self)@.pairs.update(index as int, (index, value)),
                ..old(self)@
            }),
    {
        self.pairs.set(index, (index, value));
    }

    /// The pair at `index`.
    pub fn get(&mut self, index: usize) -> (pair: (usize, Fixed))
        requires
            old(self).wf(),
            index < old(self)@.length,
        ensures
            pair == old(self)@.pairs[index as int],
            *final(self) == *old(self),
    {
        self.pairs[index]
    }

    /// The rank of body `index`, once built.
    pub fn rank_of(&self, index: usize) -> (rank: usize)
        requires
            self.wf(),
            index < self@.length,
        ensures
            rank == self@.ranks[index as int],
    {
        self.map[index]
    }

    /// Sorts the pairs by coordinate and fills the table from index to
    /// rank. The pairs must hold every index once, as they do when every
    /// body's coordinate has been set, or after an earlier build.
    pub fn build(&mut self)
        requires
            old(self).wf(),
            each_index_once(old(self)@.pairs),
        ensures
            final(self).wf(),
            final(self)@.radius == old(self)@.radius,
            final(self)@.length == old(self)@.length,
            arranges(final(self)@.pairs, final(self)@.ranks, old(self)@.pairs),
            ordered(old(self)@.pairs) ==> final(self)@.pairs == old(self)@.pairs,
            forall|source: Seq<(usize, Fixed)>| #[trigger]
                arranges(old(self)@.pairs, old(self)@.ranks, source) ==> final(self)@ == old(
                    self,
                )@,
            forall|r: int|
                0 <= r && r + 1 < final(self)@.length ==> (#[trigger] final(self)@.pairs[r]).1@
                    <= final(self)@.pairs[r + 1].1@,
    {
        arrange(&mut self.pairs, &mut self.map);
        proof {
            assert forall|earlier: Seq<(usize, Fixed)>| #[trigger]
                arranges(old(self)@.pairs, old(self)@.ranks, earlier) implies self@ == old(
                self,
            )@ by {
                lemma_rebuild_changes_nothing(old(self)@, self@, earlier);
            }
            let s = self.pairs@;
            assert forall|r: int| 0 <= r && r + 1 < s.len() implies (#[trigger] s[r]).1@ <= s[r
                + 1].1@ by {
                crate::axis::lemma_ordered_coordinates(s, r, r + 1);
            }
        }
    }

    /// The indices of the bodies whose coordinates lie within the radius
    /// of that at the rank `index`: the body at the rank itself, then those
    /// below it from the nearest outward, then those above it from the
    /// nearest outward.
    pub fn find_chain(&self, index: usize) -> (chain: Vec<usize>)
        requires
            self.wf(),
            index < self@.length,
        ensures
            ({
                let run = run_of(self@.pairs, index as int, self@.radius);
                &&& is_run(self@.pairs, index as int, self@.radius, run.0, run.1)
                &&& chain@ == chain_of(self@.pairs, index as int, run.0, run.1)
            }),
    {
        let run = find_run(&self.pairs, index, self.radius);
        let mut chain: Vec<usize> = Vec::new();
        chain.push(self.pairs[index].0);
        let mut i: usize = index;
        while i > run.0
            invariant
                run.0 <= i <= index < self.pairs.len(),
                chain@ == seq![self.pairs@[index as int].0] + Seq::new(
                    (index - i) as nat,
                    |k: int| self.pairs@[index - 1 - k].0,
                ),
            decreases i,
        {
            i -= 1;
            chain.push(self.pairs[i].0);
        }
        let ghost below = chain@;
        let mut j: usize = index + 1;
        while j < run.1
            invariant
                index < j <= run.1 <= self.pairs.len(),
                chain@ == below + Seq::new(
                    (j - index - 1) as nat,
                    |k: int| self.pairs@[index + 1 + k].0,
                ),
            decreases run.1 - j,
        {
            chain.push(self.pairs[j].0);
            j += 1;
        }
        chain
    }
}

/// The chain of a run holds an index exactly if the index stands in the run.
pub proof fn lemma_chain_contains(s: Seq<(usize, Fixed)>, rank: int, lo: int, hi: int, index: usize)
    requires
        0 <= lo <= rank < hi <= s.len(),
    ensures
        chain_of(s, rank, lo, hi).contains(index) <==> exists|k: int|
            lo <= k < hi && (#[trigger] s[k]).0 == index,
{
    let chain = chain_of(s, rank, lo, hi);
    let below = Seq::new((rank - lo) as nat, |k: int| s[rank - 1 - k].0);
    let above = Seq::new((hi - rank - 1) as nat, |k: int| s[rank + 1 + k].0);
    assert(chain == seq![s[rank].0] + below + above);
    if chain.contains(index) {
        let p = choose|p: int| 0 <= p < chain.len() && chain[p] == index;
        if p == 0 {
            assert(s[rank].0 == index);
        } else if p < 1 + below.len() {
            assert(chain[p] == below[p - 1]);
            assert(s[rank - p].0 == index);
        } else {
            assert(chain[p] == above[p - 1 - below.len()]);
            assert(s[rank + (p - below.len())].0 == index);
        }
    }
    if exists|k: int| lo <= k < hi && (#[trigger] s[k]).0 == index {
        let k = choose|k: int| lo <= k < hi && (#[trigger] s[k]).0 == index;
        if k == rank {
            assert(chain[0] == index);
        } else if k < rank {
            assert(chain[rank - k] == below[rank - 1 - k]);
            assert(chain[rank - k] == index);
        } else {
            assert(chain[below.len() + (k - rank)] == above[k - rank - 1]);
            assert(chain[below.len() + (k - rank)] == index);
        }
    }
}

/// Once built, the chain of a body's rank holds exactly the bodies whose
/// coordinate is within the radius of its own, and the body itself. The
/// bodies are those of the pairs at the positions `p` and `q` of the pairs
/// that the index was built from.
pub proof fn lemma_chain_holds_neighbours(
    axis: AxisChainModel,
    source: Seq<(usize, Fixed)>,
    p: int,
    q: int,
)
    requires
        each_index_once(source),
        arranges(axis.pairs, axis.ranks, source),
        0 <= p < source.len(),
        0 <= q < source.len(),
    ensures
        ({
            let rank = axis.ranks[source[p].0 as int] as int;
            let run = run_of(axis.pairs, rank, axis.radius);
            chain_of(axis.pairs, rank, run.0, run.1).contains(source[q].0) <==> (p == q
                || abs_diff(source[q].1@, source[p].1@) <= axis.radius@)
        }),
{
    let s = axis.pairs;
    let rp = axis.ranks[source[p].0 as int] as int;
    let rq = axis.ranks[source[q].0 as int] as int;
    crate::axis::lemma_run_exists(s, rp, axis.radius);
    let run = run_of(s, rp, axis.radius);
    assert(s[rp] == source[p]);
    assert(s[rq] == source[q]);
    lemma_run_is_neighbourhood(s, rp, axis.radius, run.0, run.1);
    lemma_chain_contains(s, rp, run.0, run.1, source[q].0);
    assert(within(s, rq, rp, axis.radius) <==> abs_diff(source[q].1@, source[p].1@)
        <= axis.radius@);
    if chain_of(s, rp, run.0, run.1).contains(source[q].0) {
        let k = choose|k: int| run.0 <= k < run.1 && (#[trigger] s[k]).0 == source[q].0;
        assert(s[k].0 == s[rq].0);
        assert(k == rq);
    }
    if p == q || within(s, rq, rp, axis.radius) {
        assert(run.0 <= rq < run.1);
        assert(s[rq].0 == source[q].0);
    }
}

/// A second build, with no coordinate set in between, leaves the sorted
/// pairs and the table as they are.
pub proof fn lemma_rebuild_changes_nothing(
    first: AxisChainModel,
    second: AxisChainModel,
    source: Seq<(usize, Fixed)>,
)
    requires
        arranges(first.pairs, first.ranks, source),
        arranges(second.pairs, second.ranks, first.pairs),
    ensures
        second.pairs == first.pairs,
        second.ranks == first.ranks,
{
    crate::axis::lemma_ordered_is_unique(second.pairs, first.pairs);
    let s = first.pairs;
    assert forall|i: int| 0 <= i < first.ranks.len() implies second.ranks[i] == first.ranks[i] by {
        let r = first.ranks[i] as int;
        assert(s[r].0 == i);
        assert(first.ranks[s[r].0 as int] == r);
        assert(second.ranks[s[r].0 as int] == r);
    }
    assert(second.ranks =~= first.ranks);
}

} // verus!
