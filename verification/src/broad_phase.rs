//! The pairwise pass with its pairs found through the one-axis indexes.
//!
//! Both passes here visit, for each ball in turn, its candidates in
//! ascending order of index. Every pair that they leave out cannot overlap,
//! so what they sum up is what the pass over all pairs sums up.

use vstd::prelude::*;
use crate::axis::{arranges, is_run, lemma_staged_holds_each_index_once, run_of};
use crate::axis_chain::{lemma_chain_holds_neighbours, AxisChain};
use crate::axis_projection::{lemma_range_holds_neighbours, AxisProjection};
use crate::ball::Ball;
use crate::collision::lemma_contact_needs_nearness;
use crate::config::Config;
use crate::fixed::{abs_diff, Fixed};
use crate::response::{
    pair_contact, spec_responses, visit, visit_row, visit_rows, zero_buffers, Buffers,
};
use crate::vec2::Vec2;

verus! {

/// Whether the elements of `s` grow from each to the next.
pub open spec fn strictly_ascending(s: Seq<usize>) -> bool {
    forall|a: int, b: int| 0 <= a < b < s.len() ==> s[a] < s[b]
}

/// Whether the sum of the radii of any two balls is at most `radius`.
pub open spec fn radii_within(balls: Seq<Ball>, radius: Fixed) -> bool {
    forall|i: int, j: int|
        0 <= i < balls.len() && 0 <= j < balls.len() ==> (#[trigger] balls[i]).radius.plus(
            (#[trigger] balls[j]).radius,
        )@ <= radius@
}

/// Whether ball `j` is within `radius` of ball `i` on the horizontal axis.
pub open spec fn near_x(balls: Seq<Ball>, i: int, j: int, radius: Fixed) -> bool {
    abs_diff(balls[j].pos.x@, balls[i].pos.x@) <= radius@
}

/// Whether ball `j` is within `radius` of ball `i` on the vertical axis.
pub open spec fn near_y(balls: Seq<Ball>, i: int, j: int, radius: Fixed) -> bool {
    abs_diff(balls[j].pos.y@, balls[i].pos.y@) <= radius@
}

/// The horizontal coordinates of the balls, staged for sorting.
pub open spec fn staged_x(balls: Seq<Ball>) -> Seq<(usize, Fixed)> {
    Seq::new(balls.len(), |k: int| (k as usize, balls[k].pos.x))
}

/// The vertical coordinates of the balls, staged for sorting.
pub open spec fn staged_y(balls: Seq<Ball>) -> Seq<(usize, Fixed)> {
    Seq::new(balls.len(), |k: int| (k as usize, balls[k].pos.y))
}

/// Where the neighbour radius covers the radii, two balls that overlap are
/// near each other on both axes.
pub proof fn lemma_overlap_is_near(balls: Seq<Ball>, config: Config, i: int, j: int)
    requires
        config.epsilon@ > 0,
        radii_within(balls, config.neighbor_radius),
        0 <= i < balls.len(),
        0 <= j < balls.len(),
        pair_contact(balls, config, i, j).is_some(),
    ensures
        i != j,
        near_x(balls, i, j, config.neighbor_radius),
        near_y(balls, i, j, config.neighbor_radius),
{
    lemma_contact_needs_nearness(
        balls[i].pos,
        balls[i].radius,
        balls[j].pos,
        balls[j].radius,
        config.epsilon,
    );
    assert(balls[i].radius.plus(balls[j].radius)@ <= config.neighbor_radius@);
}

/// Columns without an overlap leave a row's sums as they are.
pub proof fn lemma_skip(balls: Seq<Ball>, config: Config, acc: Buffers, i: int, from: nat, to: nat)
    requires
        from <= to,
        forall|j: int| from <= j < to ==> (#[trigger] pair_contact(balls, config, i, j)).is_none(),
    ensures
        visit_row(balls, config, acc, i, to) == visit_row(balls, config, acc, i, from),
    decreases to,
{
    if from < to {
        lemma_skip(balls, config, acc, i, from, (to - 1) as nat);
        assert(pair_contact(balls, config, i, to - 1).is_none());
    }
}

/// Whether the sum of the radii of any two balls is at most `radius`.
pub fn radii_fit(balls: &Vec<Ball>, radius: Fixed) -> (fit: bool)
    ensures
        fit == radii_within(balls@, radius),
{
    let n: usize = balls.len();
    if n == 0 {
        return true;
    }
    let mut widest: Fixed = balls[0].radius;
    let mut at: usize = 0;
    let mut i: usize = 1;
    while i < n
        invariant
            1 <= i <= n,
            n == balls.len(),
            at < i,
            widest == balls@[at as int].radius,
            forall|k: int| 0 <= k < i ==> (#[trigger] balls@[k]).radius@ <= widest@,
        decreases n - i,
    {
        if balls[i].radius.raw > widest.raw {
            widest = balls[i].radius;
            at = i;
        }
        i += 1;
    }
    let fit: bool = widest.plus(widest).raw <= radius.raw;
    proof {
        if fit {
            assert forall|a: int, b: int| 0 <= a < n && 0 <= b < n implies (
            #[trigger] balls@[a]).radius.plus((#[trigger] balls@[b]).radius)@ <= radius@ by {
                assert(balls@[a].radius@ <= widest@ && balls@[b].radius@ <= widest@);
            }
        } else {
            assert(balls@[at as int].radius.plus(balls@[at as int].radius)@ > radius@);
        }
    }
    fit
}

/// Whether `list` holds `item`.
pub fn holds(list: &Vec<usize>, item: usize) -> (found: bool)
    ensures
        found == list@.contains(item),
{
    let mut k: usize = 0;
    while k < list.len()
        invariant
            k <= list.len(),
            forall|q: int| 0 <= q < k ==> list@[q] != item,
        decreases list.len() - k,
    {
        if list[k] == item {
            return true;
        }
        k += 1;
    }
    false
}

/// Puts `item` into the ascending `list` at its place, unless it is there.
pub fn insert_ascending(list: &mut Vec<usize>, item: usize)
    requires
        strictly_ascending(old(list)@),
    ensures
        strictly_ascending(final(list)@),
        forall|j: usize| final(list)@.contains(j) <==> (old(list)@.contains(j) || j == item),
{
    let mut p: usize = 0;
    while p < list.len() && list[p] < item
        invariant
            p <= list.len(),
            *list == *old(list),
            forall|q: int| 0 <= q < p ==> list@[q] < item,
        decreases list.len() - p,
    {
        p += 1;
    }
    if p < list.len() && list[p] == item {
        return;
    }
    let ghost before = list@;
    list.insert(p, item);
    proof {
        let after = list@;
        assert(after.len() == before.len() + 1);
        assert forall|q: int| 0 <= q < after.len() implies after[q] == (if q < p {
            before[q]
        } else if q == p {
            item
        } else {
            before[q - 1]
        }) by {}
        assert forall|a: int, b: int| 0 <= a < b < after.len() implies after[a] < after[b] by {
            if b == p {
                assert(before[a] < item);
            } else if a == p {
                assert(before[b - 1] >= before[p as int]);
            } else if a < p && b > p {
                assert(before[a] < before[b - 1] || a == b - 1);
            }
        }
        assert forall|j: usize| after.contains(j) <==> (before.contains(j) || j == item) by {
            if after.contains(j) {
                let q = choose|q: int| 0 <= q < after.len() && after[q] == j;
                if q < p {
                    assert(before[q] == j);
                } else if q > p {
                    assert(before[q - 1] == j);
                }
            }
            if before.contains(j) {
                let q = choose|q: int| 0 <= q < before.len() && before[q] == j;
                if q < p {
                    assert(after[q] == j);
                } else {
                    assert(after[q + 1] == j);
                }
            }
            if j == item {
                assert(after[p as int] == j);
            }
        }
    }
}

/// The indices that both `xs` and `ys` hold, in ascending order: each of
/// `xs` is looked up in `ys`.
pub fn candidates(xs: &Vec<usize>, ys: &Vec<usize>) -> (both: Vec<usize>)
    ensures
        strictly_ascending(both@),
        forall|j: usize| both@.contains(j) <==> (xs@.contains(j) && ys@.contains(j)),
{
    let mut both: Vec<usize> = Vec::new();
    let mut k: usize = 0;
    while k < xs.len()
        invariant
            k <= xs.len(),
            strictly_ascending(both@),
            forall|j: usize|
                both@.contains(j) <==> (xs@.take(k as int).contains(j) && ys@.contains(j)),
        decreases xs.len() - k,
    {
        let item: usize = xs[k];
        let ghost before = both@;
        if holds(ys, item) {
            insert_ascending(&mut both, item);
        }
        proof {
            let shorter = xs@.take(k as int);
            let longer = xs@.take(k + 1);
            assert forall|j: usize| longer.contains(j) <==> (shorter.contains(j) || j == item) by {
                if longer.contains(j) {
                    let q = choose|q: int| 0 <= q < longer.len() && longer[q] == j;
                    if q < k {
                        assert(shorter[q] == j);
                    }
                }
                if shorter.contains(j) {
                    let q = choose|q: int| 0 <= q < shorter.len() && shorter[q] == j;
                    assert(longer[q] == j);
                }
                if j == item {
                    assert(longer[k as int] == j);
                }
            }
        }
        k += 1;
    }
    proof {
        assert(xs@.take(k as int) =~= xs@);
    }
    both
}

/// Visits the pairs of ball `i` with the balls listed in `listed`, which
/// holds every ball that may overlap with it.
pub fn visit_listed(
    balls: &Vec<Ball>,
    config: &Config,
    displacements: &mut Vec<Vec2>,
    velocities: &mut Vec<Vec2>,
    i: usize,
    listed: &Vec<usize>,
)
    requires
        config.wf(),
        i < balls.len(),
        forall|k: int| 0 <= k < balls.len() ==> (#[trigger] balls@[k]).wf(),
        old(displacements).len() == balls.len(),
        old(velocities).len() == balls.len(),
        strictly_ascending(listed@),
        forall|t: int| 0 <= t < listed.len() ==> listed@[t] < balls.len(),
        forall|j: int|
            0 <= j < balls.len() && !listed@.contains(j as usize) ==> (#[trigger] pair_contact(
                balls@,
                *config,
                i as int,
                j,
            )).is_none(),
    ensures
        final(displacements).len() == balls.len(),
        final(velocities).len() == balls.len(),
        (Buffers { displacements: final(displacements)@, velocities: final(velocities)@ })
            == visit_row(
            balls@,
            *config,
            Buffers { displacements: old(displacements)@, velocities: old(velocities)@ },
            i as int,
            balls.len() as nat,
        ),
{
    let ghost start = Buffers { displacements: displacements@, velocities: velocities@ };
    let ghost mut done: nat = 0;
    let mut t: usize = 0;
    while t < listed.len()
        invariant
            t <= listed.len(),
            config.wf(),
            i < balls.len(),
            forall|k: int| 0 <= k < balls.len() ==> (#[trigger] balls@[k]).wf(),
            displacements.len() == balls.len(),
            velocities.len() == balls.len(),
            strictly_ascending(listed@),
            forall|q: int| 0 <= q < listed.len() ==> listed@[q] < balls.len(),
            forall|j: int|
                0 <= j < balls.len() && !listed@.contains(j as usize) ==> (#[trigger] pair_contact(
                    balls@,
                    *config,
                    i as int,
                    j,
                )).is_none(),
            done <= balls.len(),
            t == 0 ==> done == 0,
            t > 0 ==> done == listed@[t - 1] + 1,
            (Buffers { displacements: displacements@, velocities: velocities@ }) == visit_row(
                balls@,
                *config,
                start,
                i as int,
                done,
            ),
        decreases listed.len() - t,
    {
        let c: usize = listed[t];
        proof {
            assert(t > 0 ==> listed@[t - 1] < listed@[t as int]);
            assert forall|j: int| done <= j < c implies (#[trigger] pair_contact(
                balls@,
                *config,
                i as int,
                j,
            )).is_none() by {
                if listed@.contains(j as usize) {
                    let q = choose|q: int| 0 <= q < listed.len() && listed@[q] == j as usize;
                    if q < t {
                        assert(t > 0);
                        assert(q == t - 1 || listed@[q] < listed@[t - 1]);
                    } else if q > t {
                        assert(listed@[t as int] < listed@[q]);
                    }
                }
            }
            lemma_skip(balls@, *config, start, i as int, done, c as nat);
        }
        visit(balls, config, displacements, velocities, i, c);
        proof {
            done = (c + 1) as nat;
        }
        t += 1;
    }
    proof {
        assert forall|j: int| done <= j < balls.len() implies (#[trigger] pair_contact(
            balls@,
            *config,
            i as int,
            j,
        )).is_none() by {
            if listed@.contains(j as usize) {
                let q = choose|q: int| 0 <= q < listed.len() && listed@[q] == j as usize;
                assert(q == t - 1 || listed@[q] < listed@[t - 1]);
            }
        }
        lemma_skip(balls@, *config, start, i as int, done, balls.len() as nat);
    }
}

/// An index of the balls' coordinates on one axis, built with `radius`.
pub fn build_chain_axis(balls: &Vec<Ball>, radius: Fixed, vertical: bool) -> (axis: AxisChain)
    ensures
        axis.wf(),
        axis@.length == balls.len(),
        axis@.radius == radius,
        arranges(
            axis@.pairs,
            axis@.ranks,
            if vertical {
                staged_y(balls@)
            } else {
                staged_x(balls@)
            },
        ),
{
    let n: usize = balls.len();
    let mut axis = AxisChain::new(radius, n);
    let ghost source = if vertical {
        staged_y(balls@)
    } else {
        staged_x(balls@)
    };
    let mut k: usize = 0;
    while k < n
        invariant
            k <= n,
            n == balls.len(),
            axis.wf(),
            axis@.length == n,
            axis@.radius == radius,
            source == (if vertical {
                staged_y(balls@)
            } else {
                staged_x(balls@)
            }),
            forall|q: int| 0 <= q < k ==> (#[trigger] axis@.pairs[q]) == source[q],
        decreases n - k,
    {
        let value: Fixed = if vertical {
            balls[k].pos.y
        } else {
            balls[k].pos.x
        };
        axis.set(k, value);
        k += 1;
    }
    proof {
        assert(axis@.pairs =~= source);
        lemma_staged_holds_each_index_once(source);
    }
    axis.build();
    axis
}

/// The balls that are near ball `i` on both axes, ball `i` among them, in
/// ascending order.
pub fn chain_candidates(
    balls: &Vec<Ball>,
    config: &Config,
    x_axis: &AxisChain,
    y_axis: &AxisChain,
    i: usize,
) -> (listed: Vec<usize>)
    requires
        config.wf(),
        i < balls.len(),
        radii_within(balls@, config.neighbor_radius),
        x_axis.wf(),
        y_axis.wf(),
        x_axis@.length == balls.len(),
        y_axis@.length == balls.len(),
        x_axis@.radius == config.neighbor_radius,
        y_axis@.radius == config.neighbor_radius,
        arranges(x_axis@.pairs, x_axis@.ranks, staged_x(balls@)),
        arranges(y_axis@.pairs, y_axis@.ranks, staged_y(balls@)),
    ensures
        strictly_ascending(listed@),
        forall|t: int| 0 <= t < listed.len() ==> listed@[t] < balls.len(),
        forall|j: int|
            0 <= j < balls.len() ==> (#[trigger] listed@.contains(j as usize) <==> (j == i || (
            near_x(balls@, i as int, j, config.neighbor_radius) && near_y(
                balls@,
                i as int,
                j,
                config.neighbor_radius,
            )))),
        forall|j: int|
            0 <= j < balls.len() && !listed@.contains(j as usize) ==> (#[trigger] pair_contact(
                balls@,
                *config,
                i as int,
                j,
            )).is_none(),
{
    let x_rank: usize = x_axis.rank_of(i);
    let y_rank: usize = y_axis.rank_of(i);
    let xs = x_axis.find_chain(x_rank);
    let ys = y_axis.find_chain(y_rank);
    let listed = candidates(&xs, &ys);
    proof {
        let n = balls.len() as int;
        let x_run = run_of(x_axis@.pairs, x_rank as int, x_axis@.radius);
        lemma_staged_holds_each_index_once(staged_x(balls@));
        lemma_staged_holds_each_index_once(staged_y(balls@));
        assert forall|j: int| 0 <= j < n implies (#[trigger] listed@.contains(j as usize) <==> (j
            == i || (near_x(balls@, i as int, j, config.neighbor_radius) && near_y(
            balls@,
            i as int,
            j,
            config.neighbor_radius,
        )))) by {
            lemma_chain_holds_neighbours(x_axis@, staged_x(balls@), i as int, j);
            lemma_chain_holds_neighbours(y_axis@, staged_y(balls@), i as int, j);
        }
        assert forall|t: int| 0 <= t < listed.len() implies listed@[t] < n by {
            let j = listed@[t];
            assert(listed@.contains(j));
            assert(xs@.contains(j));
            crate::axis_chain::lemma_chain_contains(
                x_axis@.pairs,
                x_rank as int,
                x_run.0,
                x_run.1,
                j,
            );
            let k = choose|k: int| x_run.0 <= k < x_run.1 && (#[trigger] x_axis@.pairs[k]).0 == j;
            assert(x_axis@.pairs[k].0 < x_axis@.pairs.len());
        }
        assert forall|j: int| 0 <= j < n && !listed@.contains(j as usize) implies (
        #[trigger] pair_contact(balls@, *config, i as int, j)).is_none() by {
            if pair_contact(balls@, *config, i as int, j).is_some() {
                lemma_overlap_is_near(balls@, *config, i as int, j);
            }
        }
    }
    listed
}

/// The pairwise pass over the pairs of balls that are near each other on
/// both axes, found by intersecting the chains of two indexes.
pub fn chain_pass(balls: &Vec<Ball>, config: &Config) -> (out: (Vec<Vec2>, Vec<Vec2>))
    requires
        config.wf(),
        forall|k: int| 0 <= k < balls.len() ==> (#[trigger] balls@[k]).wf(),
        radii_within(balls@, config.neighbor_radius),
    ensures
        out.0@ == spec_responses(balls@, *config).displacements,
        out.1@ == spec_responses(balls@, *config).velocities,
        out.0.len() == balls.len(),
        out.1.len() == balls.len(),
{
    let n: usize = balls.len();
    let x_axis = build_chain_axis(balls, config.neighbor_radius, false);
    let y_axis = build_chain_axis(balls, config.neighbor_radius, true);
    let buffers = zero_buffers(n);
    let mut displacements = buffers.0;
    let mut velocities = buffers.1;
    let mut i: usize = 0;
    while i < n
        invariant
            i <= n,
            n == balls.len(),
            config.wf(),
            forall|k: int| 0 <= k < balls.len() ==> (#[trigger] balls@[k]).wf(),
            radii_within(balls@, config.neighbor_radius),
            x_axis.wf(),
            y_axis.wf(),
            x_axis@.length == n,
            y_axis@.length == n,
            x_axis@.radius == config.neighbor_radius,
            y_axis@.radius == config.neighbor_radius,
            arranges(x_axis@.pairs, x_axis@.ranks, staged_x(balls@)),
            arranges(y_axis@.pairs, y_axis@.ranks, staged_y(balls@)),
            displacements.len() == n,
            velocities.len() == n,
            (Buffers { displacements: displacements@, velocities: velocities@ }) == visit_rows(
                balls@,
                *config,
                i as nat,
            ),
        decreases n - i,
    {
        let listed = chain_candidates(balls, config, &x_axis, &y_axis, i);
        visit_listed(balls, config, &mut displacements, &mut velocities, i, &listed);
        i += 1;
    }
    (displacements, velocities)
}

/// An index of the balls' horizontal coordinates with the range of near
/// ranks of every rank.
pub fn build_range_axis(balls: &Vec<Ball>, radius: Fixed) -> (axis: AxisProjection)
    ensures
        axis.length == balls.len(),
        axis.built_from(staged_x(balls@), radius),
{
    let n: usize = balls.len();
    let mut axis = AxisProjection::new(n);
    let mut k: usize = 0;
    while k < n
        invariant
            k <= n,
            n == balls.len(),
            axis.wf(),
            axis.length == n,
            forall|q: int| 0 <= q < k ==> (#[trigger] axis.sorted@[q]) == staged_x(balls@)[q],
        decreases n - k,
    {
        axis.set(k, balls[k].pos.x);
        k += 1;
    }
    proof {
        assert(axis.sorted@ =~= staged_x(balls@));
        lemma_staged_holds_each_index_once(staged_x(balls@));
    }
    axis.build(radius);
    axis
}

/// The balls that are near ball `i` on the horizontal axis, ball `i` among
/// them, in ascending order.
pub fn range_candidates(balls: &Vec<Ball>, config: &Config, axis: &mut AxisProjection, i: usize) -> (listed:
    Vec<usize>)
    requires
        config.wf(),
        i < balls.len(),
        radii_within(balls@, config.neighbor_radius),
        old(axis).length == balls.len(),
        old(axis).built_from(staged_x(balls@), config.neighbor_radius),
    ensures
        *final(axis) == *old(axis),
        strictly_ascending(listed@),
        forall|t: int| 0 <= t < listed.len() ==> listed@[t] < balls.len(),
        forall|j: int|
            0 <= j < balls.len() ==> (listed@.contains(j as usize) <==> (j == i || near_x(
                balls@,
                i as int,
                j,
                config.neighbor_radius,
            ))),
        forall|j: int|
            0 <= j < balls.len() && !listed@.contains(j as usize) ==> (#[trigger] pair_contact(
                balls@,
                *config,
                i as int,
                j,
            )).is_none(),
{
    let ghost n = balls.len() as int;
    let ghost source = staged_x(balls@);
    let rank: usize = axis.src_to_proj(i);
    let range = axis.get_range(rank);
    proof {
        assert(is_run(
            axis.sorted@,
            rank as int,
            config.neighbor_radius,
            axis.ranges@[rank as int].0 as int,
            axis.ranges@[rank as int].1 as int,
        ));
    }
    let mut listed: Vec<usize> = Vec::new();
    let mut k: usize = range.0;
    while k < range.1
        invariant
            range.0 <= k <= range.1 <= axis.length,
            *axis == *old(axis),
            axis.wf(),
            axis.length == balls.len(),
            strictly_ascending(listed@),
            forall|j: usize|
                listed@.contains(j) <==> exists|q: int|
                    range.0 <= q < k && (#[trigger] axis.sorted@[q]).0 == j,
        decreases range.1 - k,
    {
        let source_index: usize = axis.proj_to_src(k);
        let ghost before = listed@;
        insert_ascending(&mut listed, source_index);
        proof {
            assert forall|j: usize| listed@.contains(j) <==> exists|q: int|
                range.0 <= q < k + 1 && (#[trigger] axis.sorted@[q]).0 == j by {
                if before.contains(j) {
                    let q = choose|q: int| range.0 <= q < k && (#[trigger] axis.sorted@[q]).0 == j;
                    assert(range.0 <= q < k + 1 && axis.sorted@[q].0 == j);
                }
                if j == source_index {
                    assert(axis.sorted@[k as int].0 == j);
                }
                if exists|q: int| range.0 <= q < k + 1 && (#[trigger] axis.sorted@[q]).0 == j {
                    let q = choose|q: int|
                        range.0 <= q < k + 1 && (#[trigger] axis.sorted@[q]).0 == j;
                    if q < k {
                        assert(before.contains(j));
                    }
                }
            }
        }
        k += 1;
    }
    proof {
        assert forall|j: int| 0 <= j < n implies (listed@.contains(j as usize) <==> (j == i
            || near_x(balls@, i as int, j, config.neighbor_radius))) by {
            lemma_staged_holds_each_index_once(source);
            lemma_range_holds_neighbours(*axis, source, config.neighbor_radius, i as int, j);
            let rj = axis.ranks()[j] as int;
            assert(axis.sorted@[rj] == source[j]);
            if listed@.contains(j as usize) {
                let q = choose|q: int|
                    range.0 <= q < range.1 && (#[trigger] axis.sorted@[q]).0 == j as usize;
                assert(axis.ranks()[axis.sorted@[q].0 as int] == q);
            }
            if range.0 <= rj < range.1 {
                assert(axis.sorted@[rj].0 == j as usize);
            }
        }
        assert forall|t: int| 0 <= t < listed.len() implies listed@[t] < n by {
            let j = listed@[t];
            assert(listed@.contains(j));
            let q = choose|q: int| range.0 <= q < range.1 && (#[trigger] axis.sorted@[q]).0 == j;
            assert(axis.sorted@[q].0 < axis.sorted@.len());
        }
        assert forall|j: int| 0 <= j < n && !listed@.contains(j as usize) implies (
        #[trigger] pair_contact(balls@, *config, i as int, j)).is_none() by {
            if pair_contact(balls@, *config, i as int, j).is_some() {
                lemma_overlap_is_near(balls@, *config, i as int, j);
            }
        }
    }
    listed
}

/// The pairwise pass over the pairs of balls that are near each other on
/// the horizontal axis, found through the ranges of one index.
pub fn range_pass(balls: &Vec<Ball>, config: &Config) -> (out: (Vec<Vec2>, Vec<Vec2>))
    requires
        config.wf(),
        forall|k: int| 0 <= k < balls.len() ==> (#[trigger] balls@[k]).wf(),
        radii_within(balls@, config.neighbor_radius),
    ensures
        out.0@ == spec_responses(balls@, *config).displacements,
        out.1@ == spec_responses(balls@, *config).velocities,
        out.0.len() == balls.len(),
        out.1.len() == balls.len(),
{
    let n: usize = balls.len();
    let mut axis = build_range_axis(balls, config.neighbor_radius);
    let buffers = zero_buffers(n);
    let mut displacements = buffers.0;
    let mut velocities = buffers.1;
    let mut i: usize = 0;
    while i < n
        invariant
            i <= n,
            n == balls.len(),
            config.wf(),
            forall|k: int| 0 <= k < balls.len() ==> (#[trigger] balls@[k]).wf(),
            radii_within(balls@, config.neighbor_radius),
            axis.length == n,
            axis.built_from(staged_x(balls@), config.neighbor_radius),
            displacements.len() == n,
            velocities.len() == n,
            (Buffers { displacements: displacements@, velocities: velocities@ }) == visit_rows(
                balls@,
                *config,
                i as nat,
            ),
        decreases n - i,
    {
        let listed = range_candidates(balls, config, &mut axis, i);
        visit_listed(balls, config, &mut displacements, &mut velocities, i, &listed);
        i += 1;
    }
    (displacements, velocities)
}

} // verus!
