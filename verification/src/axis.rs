//! What the two one-axis indexes share: staging of coordinates, the sorted
//! arrangement, and the run of ranks that lie within a radius of a rank.

use vstd::prelude::*;
use crate::fixed::{abs_diff, Fixed};
use crate::sort::{ordered, precedes, sort_pairs};

verus! {

/// Whether the coordinates at positions `a` and `b` of `s` differ by at most `radius`.
pub open spec fn within(s: Seq<(usize, Fixed)>, a: int, b: int, radius: Fixed) -> bool {
    abs_diff(s[a].1@, s[b].1@) <= radius@
}

/// Whether `s` holds, at each position, that position as the index: the
/// state in which coordinates are handed over before the first sorting.
pub open spec fn staged(s: Seq<(usize, Fixed)>) -> bool {
    forall|i: int| 0 <= i < s.len() ==> (#[trigger] s[i]).0 == i
}

/// Whether some pair of `s` holds the index `i`.
pub open spec fn holds_index(s: Seq<(usize, Fixed)>, i: int) -> bool {
    exists|p: int| 0 <= p < s.len() && (#[trigger] s[p]).0 == i
}

/// Whether every index below the length of `s` stands in exactly one pair
/// of `s`: no pair holds an index beyond them, every one of them is held,
/// and none by two pairs.
pub open spec fn each_index_once(s: Seq<(usize, Fixed)>) -> bool {
    &&& forall|p: int| 0 <= p < s.len() ==> (#[trigger] s[p]).0 < s.len()
    &&& forall|i: int| 0 <= i < s.len() ==> #[trigger] holds_index(s, i)
    &&& forall|p: int, q: int|
        0 <= p < s.len() && 0 <= q < s.len() && (#[trigger] s[p]).0 == (#[trigger] s[q]).0 ==> p
            == q
}

/// Whether `[lo, hi)` is the run around `rank`: the longest stretch of
/// neighbouring positions, `rank` among them, of which every other one is
/// within `radius` of `rank`.
pub open spec fn is_run(s: Seq<(usize, Fixed)>, rank: int, radius: Fixed, lo: int, hi: int) -> bool {
    &&& 0 <= lo <= rank < hi <= s.len()
    &&& forall|k: int| lo <= k < hi && k != rank ==> #[trigger] within(s, k, rank, radius)
    &&& lo > 0 ==> !within(s, lo - 1, rank, radius)
    &&& hi < s.len() ==> !within(s, hi, rank, radius)
}

/// The run around `rank`, as its two bounds.
pub open spec fn run_of(s: Seq<(usize, Fixed)>, rank: int, radius: Fixed) -> (int, int) {
    choose|p: (int, int)| is_run(s, rank, radius, p.0, p.1)
}

/// The indices of the run from `lo` up to `hi` around `rank`: that at
/// `rank` itself, then those met when walking from `rank` down to `lo`,
/// then those met when walking from `rank` up to `hi`.
pub open spec fn chain_of(s: Seq<(usize, Fixed)>, rank: int, lo: int, hi: int) -> Seq<usize> {
    seq![s[rank].0] + Seq::new((rank - lo) as nat, |k: int| s[rank - 1 - k].0) + Seq::new(
        (hi - rank - 1) as nat,
        |k: int| s[rank + 1 + k].0,
    )
}

/// Whether `sorted` with the rank table `ranks` is the arrangement of the
/// pairs `source`: the same pairs in ascending order, and the table taking
/// each index to the position of its pair.
pub open spec fn arranges(
    sorted: Seq<(usize, Fixed)>,
    ranks: Seq<usize>,
    source: Seq<(usize, Fixed)>,
) -> bool {
    &&& sorted.len() == source.len()
    &&& ranks.len() == source.len()
    &&& ordered(sorted)
    &&& sorted.to_multiset() == source.to_multiset()
    &&& each_index_once(sorted)
    &&& forall|r: int| 0 <= r < sorted.len() ==> ranks[(#[trigger] sorted[r]).0 as int] == r
    &&& forall|i: int|
        0 <= i < source.len() ==> (#[trigger] ranks[i]) < sorted.len() && sorted[ranks[i] as int].0
            == i
    &&& forall|p: int|
        0 <= p < source.len() ==> sorted[ranks[(#[trigger] source[p]).0 as int] as int]
            == source[p]
}

/// A position has at most one run around it.
pub proof fn lemma_run_unique(
    s: Seq<(usize, Fixed)>,
    rank: int,
    radius: Fixed,
    lo1: int,
    hi1: int,
    lo2: int,
    hi2: int,
)
    requires
        is_run(s, rank, radius, lo1, hi1),
        is_run(s, rank, radius, lo2, hi2),
    ensures
        lo1 == lo2,
        hi1 == hi2,
{
    if lo1 < lo2 {
        assert(within(s, lo2 - 1, rank, radius));
    }
    if lo2 < lo1 {
        assert(within(s, lo1 - 1, rank, radius));
    }
    if hi1 < hi2 {
        assert(within(s, hi1, rank, radius));
    }
    if hi2 < hi1 {
        assert(within(s, hi2, rank, radius));
    }
}

/// Bounds that pass `is_run` are the value of `run_of`.
pub proof fn lemma_run_is(s: Seq<(usize, Fixed)>, rank: int, radius: Fixed, lo: int, hi: int)
    requires
        is_run(s, rank, radius, lo, hi),
    ensures
        run_of(s, rank, radius) == (lo, hi),
{
    let witness = (lo, hi);
    assert(is_run(s, rank, radius, witness.0, witness.1));
    let p = run_of(s, rank, radius);
    lemma_run_unique(s, rank, radius, lo, hi, p.0, p.1);
}

/// Every position has a run around it.
pub proof fn lemma_run_exists(s: Seq<(usize, Fixed)>, rank: int, radius: Fixed)
    requires
        0 <= rank < s.len(),
    ensures
        is_run(s, rank, radius, run_of(s, rank, radius).0, run_of(s, rank, radius).1),
{
    let lo = lemma_run_start(s, rank, radius, rank);
    let hi = lemma_run_end(s, rank, radius, rank + 1);
    lemma_run_is(s, rank, radius, lo, hi);
}

proof fn lemma_run_start(s: Seq<(usize, Fixed)>, rank: int, radius: Fixed, from: int) -> (lo: int)
    requires
        0 <= from <= rank < s.len(),
        forall|k: int| from <= k < rank ==> #[trigger] within(s, k, rank, radius),
    ensures
        0 <= lo <= rank,
        forall|k: int| lo <= k < rank ==> #[trigger] within(s, k, rank, radius),
        lo > 0 ==> !within(s, lo - 1, rank, radius),
    decreases from,
{
    if from > 0 && within(s, from - 1, rank, radius) {
        lemma_run_start(s, rank, radius, from - 1)
    } else {
        from
    }
}

proof fn lemma_run_end(s: Seq<(usize, Fixed)>, rank: int, radius: Fixed, from: int) -> (hi: int)
    requires
        0 <= rank < from <= s.len(),
        forall|k: int| rank < k < from ==> #[trigger] within(s, k, rank, radius),
    ensures
        rank < hi <= s.len(),
        forall|k: int| rank < k < hi ==> #[trigger] within(s, k, rank, radius),
        hi < s.len() ==> !within(s, hi, rank, radius),
    decreases s.len() - from,
{
    if from < s.len() && within(s, from, rank, radius) {
        lemma_run_end(s, rank, radius, from + 1)
    } else {
        from
    }
}

/// In an ordered sequence coordinates ascend with the position.
pub proof fn lemma_ordered_coordinates(s: Seq<(usize, Fixed)>, i: int, j: int)
    requires
        ordered(s),
        0 <= i <= j < s.len(),
    ensures
        s[i].1@ <= s[j].1@,
{
    if i < j {
        assert(precedes(s[i], s[j]));
    }
}

/// In an ordered sequence the run around a position holds exactly the
/// positions within the radius of it, besides the position itself.
pub proof fn lemma_run_is_neighbourhood(
    s: Seq<(usize, Fixed)>,
    rank: int,
    radius: Fixed,
    lo: int,
    hi: int,
)
    requires
        ordered(s),
        is_run(s, rank, radius, lo, hi),
    ensures
        forall|k: int|
            0 <= k < s.len() ==> ((lo <= k < hi) <==> (k == rank || #[trigger] within(
                s,
                k,
                rank,
                radius,
            ))),
{
    assert forall|k: int| 0 <= k < s.len() implies ((lo <= k < hi) <==> (k == rank
        || #[trigger] within(s, k, rank, radius))) by {
        if k < lo {
            lemma_ordered_coordinates(s, k, lo - 1);
            lemma_ordered_coordinates(s, lo - 1, rank);
            assert(!within(s, lo - 1, rank, radius));
        } else if k >= hi {
            lemma_ordered_coordinates(s, hi, k);
            lemma_ordered_coordinates(s, rank, hi);
            assert(!within(s, hi, rank, radius));
        } else if k != rank {
            assert(within(s, k, rank, radius));
        }
    }
}

/// Staged pairs hold every index once.
pub proof fn lemma_staged_holds_each_index_once(s: Seq<(usize, Fixed)>)
    requires
        staged(s),
    ensures
        each_index_once(s),
{
    assert forall|i: int| 0 <= i < s.len() implies #[trigger] holds_index(s, i) by {
        assert(s[i].0 == i);
    }
}

/// Pairs that hold every index once keep doing so when rearranged, and
/// every pair of the one sequence stands in the other.
pub proof fn lemma_rearranged(source: Seq<(usize, Fixed)>, sorted: Seq<(usize, Fixed)>)
    requires
        each_index_once(source),
        sorted.to_multiset() == source.to_multiset(),
    ensures
        sorted.len() == source.len(),
        each_index_once(sorted),
        forall|r: int| 0 <= r < sorted.len() ==> source.contains(#[trigger] sorted[r]),
        forall|p: int| 0 <= p < source.len() ==> sorted.contains(#[trigger] source[p]),
{
    vstd::seq_lib::to_multiset_len(source);
    vstd::seq_lib::to_multiset_len(sorted);
    assert forall|r: int| 0 <= r < sorted.len() implies source.contains(#[trigger] sorted[r]) by {
        assert(sorted.contains(sorted[r]));
        vstd::seq_lib::to_multiset_contains(sorted, sorted[r]);
        vstd::seq_lib::to_multiset_contains(source, sorted[r]);
    }
    assert forall|p: int| 0 <= p < source.len() implies sorted.contains(#[trigger] source[p]) by {
        assert(source.contains(source[p]));
        vstd::seq_lib::to_multiset_contains(source, source[p]);
        vstd::seq_lib::to_multiset_contains(sorted, source[p]);
    }
    assert forall|r: int| 0 <= r < sorted.len() implies (#[trigger] sorted[r]).0
        < sorted.len() by {
        assert(source.contains(sorted[r]));
        let p = choose|p: int| 0 <= p < source.len() && source[p] == sorted[r];
        assert(source[p].0 < source.len());
    }
    assert forall|i: int| 0 <= i < sorted.len() implies #[trigger] holds_index(sorted, i) by {
        assert(holds_index(source, i));
        let p = choose|p: int| 0 <= p < source.len() && (#[trigger] source[p]).0 == i;
        assert(sorted.contains(source[p]));
        let r = choose|r: int| 0 <= r < sorted.len() && sorted[r] == source[p];
        assert(sorted[r].0 == i);
    }
    assert(source.no_duplicates());
    source.lemma_multiset_has_no_duplicates();
    sorted.lemma_multiset_has_no_duplicates_conv();
    assert forall|r1: int, r2: int|
        0 <= r1 < sorted.len() && 0 <= r2 < sorted.len() && (#[trigger] sorted[r1]).0 == (
        #[trigger] sorted[r2]).0 implies r1 == r2 by {
        assert(source.contains(sorted[r1]));
        assert(source.contains(sorted[r2]));
        let p1 = choose|p: int| 0 <= p < source.len() && source[p] == sorted[r1];
        let p2 = choose|p: int| 0 <= p < source.len() && source[p] == sorted[r2];
        assert(source[p1].0 == source[p2].0);
        assert(p1 == p2);
    }
}

/// Two sequences of the same pairs, both in ascending order, are equal.
pub proof fn lemma_ordered_is_unique(a: Seq<(usize, Fixed)>, b: Seq<(usize, Fixed)>)
    requires
        ordered(a),
        ordered(b),
        a.to_multiset() == b.to_multiset(),
    ensures
        a == b,
{
    let leq = |x: (usize, Fixed), y: (usize, Fixed)| precedes(x, y);
    assert(vstd::relations::sorted_by(a, leq)) by {
        assert forall|i: int, j: int| 0 <= i < j < a.len() implies #[trigger] leq(a[i], a[j]) by {
            assert(precedes(a[i], a[j]));
        }
    }
    assert(vstd::relations::sorted_by(b, leq)) by {
        assert forall|i: int, j: int| 0 <= i < j < b.len() implies #[trigger] leq(b[i], b[j]) by {
            assert(precedes(b[i], b[j]));
        }
    }
    assert(vstd::relations::total_ordering(leq)) by {
        assert(vstd::relations::reflexive(leq));
        assert(vstd::relations::transitive(leq));
        assert(vstd::relations::strongly_connected(leq));
        assert forall|x: (usize, Fixed), y: (usize, Fixed)|
            #[trigger] leq(x, y) && #[trigger] leq(y, x) implies x == y by {
            assert(x.1.raw == y.1.raw);
        }
        assert(vstd::relations::antisymmetric(leq));
    }
    vstd::seq_lib::lemma_sorted_unique(a, b, leq);
}

/// Sorts `pairs` by coordinate, equal coordinates by index, and fills
/// `ranks` with the position that each index has come to. Pairs that stand
/// in that order already stay as they are.
pub fn arrange(pairs: &mut Vec<(usize, Fixed)>, ranks: &mut Vec<usize>)
    requires
        each_index_once(old(pairs)@),
        old(ranks).len() == old(pairs).len(),
    ensures
        arranges(final(pairs)@, final(ranks)@, old(pairs)@),
        ordered(old(pairs)@) ==> final(pairs)@ == old(pairs)@,
{
    let ghost source = pairs@;
    let sorted = sort_pairs(pairs);
    *pairs = sorted;
    proof {
        lemma_rearranged(source, pairs@);
        if ordered(source) {
            lemma_ordered_is_unique(pairs@, source);
        }
    }
    let n: usize = pairs.len();
    let mut r: usize = 0;
    while r < n
        invariant
            r <= n,
            n == pairs.len(),
            ranks.len() == n,
            each_index_once(pairs@),
            forall|q: int| 0 <= q < r ==> ranks@[(#[trigger] pairs@[q]).0 as int] == q,
        decreases n - r,
    {
        let index: usize = pairs[r].0;
        ranks.set(index, r);
        r += 1;
    }
    proof {
        assert forall|i: int| 0 <= i < n implies (#[trigger] ranks@[i]) < pairs@.len()
            && pairs@[ranks@[i] as int].0 == i by {
            assert(holds_index(pairs@, i));
            let q = choose|q: int| 0 <= q < pairs@.len() && (#[trigger] pairs@[q]).0 == i;
            assert(ranks@[pairs@[q].0 as int] == q);
        }
        assert forall|p: int| 0 <= p < source.len() implies pairs@[ranks@[(
        #[trigger] source[p]).0 as int] as int] == source[p] by {
            assert(pairs@.contains(source[p]));
            let q = choose|q: int| 0 <= q < pairs@.len() && pairs@[q] == source[p];
            assert(ranks@[pairs@[q].0 as int] == q);
        }
    }
}

/// The run around `rank`: scans down and then up from `rank`, each way
/// until the first pair farther than `radius` from it.
pub fn find_run(pairs: &Vec<(usize, Fixed)>, rank: usize, radius: Fixed) -> (run: (usize, usize))
    requires
        rank < pairs.len(),
    ensures
        is_run(pairs@, rank as int, radius, run.0 as int, run.1 as int),
        (run.0 as int, run.1 as int) == run_of(pairs@, rank as int, radius),
{
    let centre: Fixed = pairs[rank].1;
    let mut lo: usize = rank;
    while lo > 0 && pairs[lo - 1].1.is_near(centre, radius)
        invariant
            lo <= rank < pairs.len(),
            centre == pairs@[rank as int].1,
            forall|k: int| lo <= k < rank ==> #[trigger] within(pairs@, k, rank as int, radius),
        decreases lo,
    {
        lo -= 1;
    }
    let mut hi: usize = rank + 1;
    while hi < pairs.len() && pairs[hi].1.is_near(centre, radius)
        invariant
            rank < hi <= pairs.len(),
            centre == pairs@[rank as int].1,
            forall|k: int| rank < k < hi ==> #[trigger] within(pairs@, k, rank as int, radius),
        decreases pairs.len() - hi,
    {
        hi += 1;
    }
    proof {
        lemma_run_is(pairs@, rank as int, radius, lo as int, hi as int);
    }
    (lo, hi)
}

} // verus!
