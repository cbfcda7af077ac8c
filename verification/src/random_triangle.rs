use vstd::prelude::*;
use rand::rngs::ThreadRng;
use rand::Rng;
use std::collections::VecDeque;
use crate::vertex::{triangle_of, triangles_nondegenerate};
use crate::rim_geometry::{
    arc_contains_edge, arcs_covering, corners_outside, gap_edge_count, has_rim_side,
    lemma_covering_front, lemma_covering_two, lemma_gap_count_nonneg, lemma_split_arc,
    queued_arc, rim_triangle, side_of_some_triangle, within_gap,
};
use crate::partial_triangulation::{
    lemma_complete_triangulation, lemma_initial_partial, lemma_split_partial,
    partial_triangulation, push_triangle, split_queue, split_ready,
};

verus! {

#[verifier::external_type_specification]
#[verifier::external_body]
pub struct ExThreadRng(ThreadRng);

/// Calls `rand::Rng::random_range` on the half-open range `lo..hi`. The rand documentation
/// promises a value inside the range, and a panic only for an empty range, which
/// `requires` leaves out. Which value comes back is left open: it depends on the
/// generator's state.
#[verifier::external_body]
fn random_index(rng: &mut ThreadRng, lo: usize, hi: usize) -> (r: usize)
    requires
        lo < hi,
    ensures
        lo <= r < hi,
{
    rng.random_range(lo..hi)
}

/// Picks the first triangle of a random triangulation of `num_points` rim points: three
/// distinct points `s1 < s2 < s3`, the first drawn below `num_points - 2`, each following
/// one drawn uniformly from the points above the previous one.
pub fn choose_initial_triangle(rng: &mut ThreadRng, num_points: usize) -> (res: (usize, usize, usize))
    requires
        3 <= num_points,
    ensures
        res.0 < res.1 < res.2 < num_points,
        res.0 < num_points - 2,
        res.1 < num_points - 1,
{
    let s1 = random_index(rng, 0, num_points - 2);
    let s2 = random_index(rng, s1 + 1, num_points - 1);
    let s3 = random_index(rng, s2 + 1, num_points);
    (s1, s2, s3)
}

/// The number of rim steps from point `start` forward (with wrap-around) to point `end`.
pub open spec fn arc_len(start: int, end: int, n: int) -> int {
    if end >= start {
        end - start
    } else {
        end + n - start
    }
}

/// The pair of rim positions that `push_valid_edge` compares: `b` is moved one turn on
/// when it does not come after `a`.
pub open spec fn edge_span(a: int, b: int, n: int) -> (int, int) {
    if a < b {
        (a, b)
    } else {
        (a, b + n)
    }
}

/// Whether the edge from `a` to `b` spans more than one rim step, so that it still has
/// points between its ends.
pub open spec fn edge_is_open(a: int, b: int, n: int) -> bool {
    let (s, e) = edge_span(a, b, n);
    s - e > 1 || e - s > 1
}

/// The queue after `push_valid_edge(a, b, ..)`.
pub open spec fn spec_push_valid_edge(q: Seq<(usize, usize)>, a: int, b: int, n: int) -> Seq<
    (usize, usize),
> {
    let (s, e) = edge_span(a, b, n);
    if edge_is_open(a, b, n) {
        q.push(((s % n) as usize, (e % n) as usize))
    } else {
        q
    }
}

/// What `push_valid_edge` asks: no overflow when `b` is moved one turn on, and a
/// nonzero number of points when the edge is queued.
pub open spec fn push_valid_edge_requires(a: int, b: int, n: int) -> bool {
    &&& (a >= b ==> b + n <= usize::MAX)
    &&& (edge_is_open(a, b, n) ==> n > 0)
}

/// Queues the rim edge from `a` to `b` (going forward, with wrap-around) when it spans
/// more than one step, that is when points lie between its ends; the ends are stored
/// reduced modulo `num_points`.
pub fn push_valid_edge(a: usize, b: usize, q: &mut VecDeque<(usize, usize)>, num_points: usize)
    requires
        push_valid_edge_requires(a as int, b as int, num_points as int),
    ensures
        final(q)@ == spec_push_valid_edge(old(q)@, a as int, b as int, num_points as int),
{
    let (start, end) = if a < b {
        (a, b)
    } else {
        (a, b + num_points)
    };
    let diff = if start > end {
        start - end
    } else {
        end - start
    };
    if diff > 1 {
        q.push_back((start % num_points, end % num_points));
    }
}

/// The sum, over the queued edges, of the number of points strictly between each edge's ends.
pub open spec fn queue_slack(q: Seq<(usize, usize)>, n: int) -> int
    decreases q.len(),
{
    if q.len() == 0 {
        0
    } else {
        queue_slack(q.drop_last(), n) + arc_len(q.last().0 as int, q.last().1 as int, n) - 1
    }
}

pub proof fn lemma_queue_slack_front(q: Seq<(usize, usize)>, n: int)
    requires
        q.len() > 0,
    ensures
        queue_slack(q, n) == arc_len(q[0].0 as int, q[0].1 as int, n) - 1 + queue_slack(
            q.drop_first(),
            n,
        ),
    decreases q.len(),
{
    if q.len() > 1 {
        lemma_queue_slack_front(q.drop_last(), n);
        assert(q.drop_last().drop_first() =~= q.drop_first().drop_last());
    } else {
        assert(q.drop_first() =~= q.drop_last());
    }
}

/// A random triangulation of `n` rim points under construction: the triangles found so
/// far, and the queue of rim edges that still have points between their ends. Each such
/// edge is closed off by a triangle with one of those points, which leaves two shorter edges.
pub struct RandomTriangulation {
    num_points: usize,
    queue: VecDeque<(usize, usize)>,
    indices: Vec<u32>,
}

impl RandomTriangulation {
    /// The number of rim points.
    pub closed spec fn spec_num_points(&self) -> nat {
        self.num_points as nat
    }

    /// The queued edges, oldest first.
    pub closed spec fn spec_queue(&self) -> Seq<(usize, usize)> {
        self.queue@
    }

    /// The triangles found so far, as an index list.
    pub closed spec fn spec_indices(&self) -> Seq<u32> {
        self.indices@
    }

    /// The state is a partial triangulation of the rim polygon:
    /// - every queued edge joins two rim points, spans at least two and at most `n - 2`
    ///   rim edges, and so encloses at least one point;
    /// - every triangle found is a rim triangle (corners in order round the rim);
    /// - no two triangles overlap, and no corner of a triangle lies strictly inside a
    ///   queued arc;
    /// - every rim edge lies on exactly one queued arc or is a side of exactly one triangle,
    ///   and not both (so the queued arcs share no rim edge);
    /// - the triangles found plus the points still enclosed by queued edges add up to `n - 2`.
    pub closed spec fn wf(&self) -> bool {
        let n = self.num_points as int;
        &&& 3 <= n <= u32::MAX
        &&& 2 * n <= usize::MAX
        &&& partial_triangulation(n, self.queue@, self.indices@)
    }

    /// Starts with the triangle `s1, s2, s3` and queues the three rim edges it leaves open.
    pub fn new(num_points: usize, s1: usize, s2: usize, s3: usize) -> (res: Self)
        requires
            3 <= num_points <= u32::MAX,
            2 * num_points <= usize::MAX,
            s1 < s2 < s3 < num_points,
        ensures
            res.wf(),
            res.spec_num_points() == num_points,
            res.spec_indices() == seq![s1 as u32, s2 as u32, s3 as u32],
            res.spec_queue() == spec_push_valid_edge(
                spec_push_valid_edge(
                    spec_push_valid_edge(Seq::empty(), s1 as int, s2 as int, num_points as int),
                    s2 as int,
                    s3 as int,
                    num_points as int,
                ),
                s3 as int,
                s1 as int,
                num_points as int,
            ),
    {
        let n = num_points;
        let mut indices: Vec<u32> = Vec::new();
        indices.push(s1 as u32);
        indices.push(s2 as u32);
        indices.push(s3 as u32);
        let mut queue: VecDeque<(usize, usize)> = VecDeque::new();
        let ghost q0 = queue@;
        push_valid_edge(s1, s2, &mut queue, n);
        let ghost q1 = queue@;
        push_valid_edge(s2, s3, &mut queue, n);
        let ghost q2 = queue@;
        push_valid_edge(s3, s1, &mut queue, n);
        let ghost q3 = queue@;
        proof {
            let nn = n as int;
            let (a, b, c) = (s1 as int, s2 as int, s3 as int);
            Self::lemma_push_shape(q0, a, b, nn);
            Self::lemma_push_shape(q1, b, c, nn);
            Self::lemma_push_shape(q2, c, a, nn);
            assert(q0 =~= Seq::<(usize, usize)>::empty());
            assert(indices@ =~= push_triangle(Seq::empty(), a, b, c));
            lemma_initial_partial(nn, a, b, c);
        }
        RandomTriangulation { num_points: n, queue, indices }
    }

    /// `push_valid_edge` queues the pair `(a, b)` itself exactly when its arc spans two or
    /// more edges.
    proof fn lemma_push_shape(q: Seq<(usize, usize)>, a: int, b: int, n: int)
        requires
            0 <= a < n,
            0 <= b < n,
            n <= usize::MAX,
            a != b,
        ensures
            arc_len(a, b, n) >= 1,
            spec_push_valid_edge(q, a, b, n) == if arc_len(a, b, n) >= 2 {
                q.push((a as usize, b as usize))
            } else {
                q
            },
    {
        if edge_is_open(a, b, n) {
            let (s, e) = edge_span(a, b, n);
            vstd::arithmetic::div_mod::lemma_small_mod(a as nat, n as nat);
            vstd::arithmetic::div_mod::lemma_small_mod(b as nat, n as nat);
            if a >= b {
                vstd::arithmetic::div_mod::lemma_mod_add_multiples_vanish(b, n);
                assert(e == n + b);
            }
            assert(s % n == a && e % n == b);
        }
    }

    /// The number of rim steps spanned by the oldest queued edge, or `None` when every
    /// edge has been closed off and the triangulation is complete.
    pub fn front_arc_len(&self) -> (res: Option<usize>)
        requires
            self.wf(),
        ensures
            self.spec_queue().len() == 0 ==> res is None,
            self.spec_queue().len() > 0 ==> res == Some(
                arc_len(
                    self.spec_queue()[0].0 as int,
                    self.spec_queue()[0].1 as int,
                    self.spec_num_points() as int,
                ) as usize,
            ),
    {
        if self.queue.len() == 0 {
            None
        } else {
            let (start, end) = self.queue[0];
            let len = end.checked_sub(start).unwrap_or((end + self.num_points) - start);
            Some(len)
        }
    }

    /// Closes off the oldest queued edge `(start, end)` with the triangle
    /// `start, i, end`, where `i` is the point `offset + 1` steps on from `start`, and
    /// queues the two new edges `start..i` and `i..end` that still enclose points.
    pub fn split_front_arc(&mut self, offset: usize)
        requires
            old(self).wf(),
            old(self).spec_queue().len() > 0,
            offset + 2 <= arc_len(
                old(self).spec_queue()[0].0 as int,
                old(self).spec_queue()[0].1 as int,
                old(self).spec_num_points() as int,
            ),
        ensures
            final(self).wf(),
            ({
                let n = old(self).spec_num_points() as int;
                let (start, end) = old(self).spec_queue()[0];
                let i = (start + 1 + offset) % n;
                &&& final(self).spec_num_points() == old(self).spec_num_points()
                &&& final(self).spec_indices() == old(self).spec_indices().push(start as u32).push(
                    i as u32,
                ).push(end as u32)
                &&& final(self).spec_queue() == spec_push_valid_edge(
                    spec_push_valid_edge(old(self).spec_queue().drop_first(), start as int, i, n),
                    i,
                    end as int,
                    n,
                )
            }),
    {
        let n = self.num_points;
        let ghost nn = n as int;
        let ghost q_old = self.queue@;
        let ghost t_old: int = (self.indices@.len() / 3) as int;
        let ghost idx_old = self.indices@;
        proof {
            lemma_queue_slack_front(q_old, nn);
        }
        let (start, end) = self.queue.pop_front().unwrap();
        let len = end.checked_sub(start).unwrap_or((end + n) - start);
        let i = (start + 1 + offset) % n;
        self.indices.push(start as u32);
        self.indices.push(i as u32);
        self.indices.push(end as u32);
        let ghost q1 = self.queue@;
        let ghost (si, ii, ei) = (start as int, i as int, end as int);
        proof {
            assert(q1 =~= q_old.drop_first());
            if start + 1 + offset < n {
                vstd::arithmetic::div_mod::lemma_small_mod((start + 1 + offset) as nat, n as nat);
            } else {
                vstd::arithmetic::div_mod::lemma_mod_sub_multiples_vanish(
                    (start + 1 + offset) as int,
                    nn,
                );
                vstd::arithmetic::div_mod::lemma_small_mod((start + 1 + offset - n) as nat, n as nat);
            }
            lemma_split_arc(si, ei, ii, offset as int, nn);
        }
        push_valid_edge(start, i, &mut self.queue, n);
        let ghost q2 = self.queue@;
        push_valid_edge(i, end, &mut self.queue, n);
        proof {
            Self::lemma_push_shape(q1, si, ii, nn);
            Self::lemma_push_shape(q2, ii, ei, nn);
            assert(self.queue@ == split_queue(q_old, si, ii, ei, nn));
            assert(self.indices@ == push_triangle(idx_old, si, ii, ei));
            assert(split_ready(nn, q_old, si, ii, ei, offset as int));
            lemma_split_partial(nn, q_old, idx_old, si, ii, ei, offset as int);
        }
    }

    /// The triangles found so far, as an index list.
    pub fn into_indices(self) -> (res: Vec<u32>)
        ensures
            res@ == self.spec_indices(),
    {
        self.indices
    }
}

/// A finished random triangulation of `n` points (no edge left open) is a triangulation of
/// the rim polygon: it has exactly `n - 2` triangles, all with their corners on the rim in
/// order round it (so no triangle repeats a point); every rim edge is a side of exactly one
/// triangle; and no two triangles overlap (all corners of one lie on a single gap between
/// consecutive corners of the other).
pub proof fn lemma_finished_triangulation(t: RandomTriangulation)
    requires
        t.wf(),
        t.spec_queue().len() == 0,
    ensures
        ({
            let n = t.spec_num_points() as int;
            let idx = t.spec_indices();
            &&& idx.len() == 3 * (n - 2)
            &&& forall|j: int| 0 <= j < idx.len() ==> (#[trigger] idx[j] as int) < n
            &&& triangles_nondegenerate(idx)
            &&& forall|s: int| 0 <= s < n - 2 ==> rim_triangle(#[trigger] triangle_of(idx, s), n)
            &&& forall|j: int| 0 <= j < n ==> #[trigger] side_of_some_triangle(idx, n - 2, j, n)
            &&& forall|j: int, s: int, u: int|
                0 <= j < n && 0 <= s < n - 2 && 0 <= u < n - 2 && #[trigger] has_rim_side(
                    triangle_of(idx, s),
                    j,
                    n,
                ) && #[trigger] has_rim_side(triangle_of(idx, u), j, n) ==> s == u
            &&& forall|s: int, u: int|
                0 <= s < n - 2 && 0 <= u < n - 2 && s != u ==> within_gap(
                    #[trigger] triangle_of(idx, u),
                    #[trigger] triangle_of(idx, s),
                    n,
                )
        }),
{
    lemma_complete_triangulation(t.spec_num_points() as int, t.spec_queue(), t.spec_indices());
}

/// At every stage of a random triangulation: every rim edge lies on exactly one queued
/// arc or is a side of exactly one triangle found, and not both, so that no two queued arcs
/// share a rim edge; no corner of a triangle lies strictly inside a queued arc; and no two
/// triangles overlap.
pub proof fn lemma_partial_triangulation(t: RandomTriangulation)
    requires
        t.wf(),
    ensures
        ({
            let n = t.spec_num_points() as int;
            let q = t.spec_queue();
            let idx = t.spec_indices();
            let m = idx.len() / 3;
            &&& forall|j: int|
                0 <= j < n ==> #[trigger] arcs_covering(q, j, n) + gap_edge_count(idx, m as nat, j, n)
                    == 1
            &&& forall|j: int, x: int, y: int|
                0 <= j < n && 0 <= x < q.len() && 0 <= y < q.len() && #[trigger] arc_contains_edge(
                    queued_arc(q[x]),
                    j,
                    n,
                ) && #[trigger] arc_contains_edge(queued_arc(q[y]), j, n) ==> x == y
            &&& forall|x: int, s: int|
                0 <= x < q.len() && 0 <= s < m ==> corners_outside(
                    #[trigger] triangle_of(idx, s),
                    queued_arc(#[trigger] q[x]),
                    n,
                )
            &&& forall|s: int, u: int|
                0 <= s < m && 0 <= u < m && s != u ==> within_gap(
                    #[trigger] triangle_of(idx, u),
                    #[trigger] triangle_of(idx, s),
                    n,
                )
        }),
{
    let n = t.spec_num_points() as int;
    let q = t.spec_queue();
    let idx = t.spec_indices();
    let m = (idx.len() / 3) as nat;
    assert forall|j: int, x: int, y: int|
        0 <= j < n && 0 <= x < q.len() && 0 <= y < q.len() && #[trigger] arc_contains_edge(
            queued_arc(q[x]),
            j,
            n,
        ) && #[trigger] arc_contains_edge(queued_arc(q[y]), j, n) implies x == y by {
        if x != y {
            let (lo, hi) = if x < y { (x, y) } else { (y, x) };
            let qs = q.subrange(lo, q.len() as int);
            assert(qs[0] == q[lo]);
            assert(qs[hi - lo] == q[hi]);
            lemma_covering_two(qs, hi - lo, j, n);
            lemma_covering_suffix(q, lo, j, n);
            lemma_gap_count_nonneg(idx, m, j, n);
            assert(arcs_covering(q, j, n) + gap_edge_count(idx, m, j, n) == 1);
        }
    }
}

/// The queued arcs from position `lo` on cover no more than the whole queue.
proof fn lemma_covering_suffix(q: Seq<(usize, usize)>, lo: int, j: int, n: int)
    requires
        0 <= lo <= q.len(),
    ensures
        arcs_covering(q.subrange(lo, q.len() as int), j, n) <= arcs_covering(q, j, n),
    decreases lo,
{
    if lo > 0 {
        lemma_covering_suffix(q.drop_first(), lo - 1, j, n);
        assert(q.drop_first().subrange(lo - 1, q.drop_first().len() as int) =~= q.subrange(
            lo,
            q.len() as int,
        ));
        lemma_covering_front(q, j, n);
    } else {
        assert(q.subrange(0, q.len() as int) =~= q);
    }
}

/// At every stage the triangles found plus the points still enclosed by queued edges add up
/// to `n - 2`, and every queued edge encloses at least one point; so each split, which adds
/// one triangle, uses up one enclosed point, and the number of splits still to come is
/// bounded by what the queue encloses.
pub proof fn lemma_split_budget(t: RandomTriangulation)
    requires
        t.wf(),
    ensures
        t.spec_indices().len() / 3 + queue_slack(t.spec_queue(), t.spec_num_points() as int)
            == t.spec_num_points() - 2,
        queue_slack(t.spec_queue(), t.spec_num_points() as int) >= t.spec_queue().len(),
{
    lemma_slack_at_least_len(t.spec_queue(), t.spec_num_points() as int);
}

proof fn lemma_slack_at_least_len(q: Seq<(usize, usize)>, n: int)
    requires
        forall|x: int|
            0 <= x < q.len() ==> arc_len((#[trigger] q[x]).0 as int, q[x].1 as int, n) >= 2,
    ensures
        queue_slack(q, n) >= q.len(),
    decreases q.len(),
{
    if q.len() > 0 {
        let q2 = q.drop_last();
        assert forall|x: int| 0 <= x < q2.len() implies arc_len((#[trigger] q2[x]).0 as int, q2[x].1 as int, n) >= 2 by {
            assert(q2[x] == q[x]);
        }
        lemma_slack_at_least_len(q2, n);
        assert(q.last() == q[q.len() - 1]);
    }
}

} // verus!
