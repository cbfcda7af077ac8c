use vstd::prelude::*;
use crate::random_triangle::{arc_len, queue_slack};
use crate::rim_geometry::{
    arc_interior, arcs_covering, corners_outside, gap_edge, gap_edge_count, has_rim_side,
    lemma_arc_in_gap, lemma_covering_front, lemma_covering_push, lemma_covering_two,
    lemma_first_triangle, lemma_gap_count_exact, lemma_gap_count_nonneg, lemma_gap_count_same,
    lemma_gap_edge_is_side, lemma_interior_edges, lemma_outside_in_closing_gap, lemma_split_arc,
    prev_point, queued_arc, rim_triangle, side_of_some_triangle, within_gap,
};
use crate::vertex::{triangle_of, triangles_nondegenerate};

verus! {

// A partial triangulation of the polygon of `n` rim points: the triangles found so far
// (an index list) and the queue of arcs still to be triangulated.

/// The queued arcs join rim points and span between two and `n - 2` rim edges.
pub open spec fn queue_in_range(n: int, q: Seq<(usize, usize)>) -> bool {
    forall|x: int|
        0 <= x < q.len() ==> {
            &&& (#[trigger] q[x]).0 < n
            &&& q[x].1 < n
            &&& 2 <= arc_len(q[x].0 as int, q[x].1 as int, n) <= n - 2
        }
}

/// The index list is whole triangles, every index names a rim point, and every triangle
/// is a rim triangle.
pub open spec fn triangles_in_range(n: int, idx: Seq<u32>) -> bool {
    &&& idx.len() % 3 == 0
    &&& forall|j: int| 0 <= j < idx.len() ==> (#[trigger] idx[j] as int) < n
    &&& forall|t: int| 0 <= t < idx.len() / 3 ==> rim_triangle(#[trigger] triangle_of(idx, t), n)
}

/// No two triangles overlap.
pub open spec fn triangles_disjoint(n: int, idx: Seq<u32>) -> bool {
    forall|t: int, u: int|
        0 <= t < idx.len() / 3 && 0 <= u < idx.len() / 3 && t != u ==> within_gap(
            #[trigger] triangle_of(idx, u),
            #[trigger] triangle_of(idx, t),
            n,
        )
}

/// No corner of a triangle lies strictly inside a queued arc.
pub open spec fn corners_outside_queue(n: int, q: Seq<(usize, usize)>, idx: Seq<u32>) -> bool {
    forall|x: int, t: int|
        0 <= x < q.len() && 0 <= t < idx.len() / 3 ==> corners_outside(
            #[trigger] triangle_of(idx, t),
            queued_arc(#[trigger] q[x]),
            n,
        )
}

/// Every rim edge lies on exactly one queued arc, or is a single-edge gap of exactly one
/// triangle, and not both.
pub open spec fn edges_covered_once(n: int, q: Seq<(usize, usize)>, idx: Seq<u32>) -> bool {
    forall|j: int|
        0 <= j < n ==> #[trigger] arcs_covering(q, j, n) + gap_edge_count(
            idx,
            (idx.len() / 3) as nat,
            j,
            n,
        ) == 1
}

/// All the properties of a partial triangulation together.
pub open spec fn partial_triangulation(n: int, q: Seq<(usize, usize)>, idx: Seq<u32>) -> bool {
    &&& queue_in_range(n, q)
    &&& triangles_in_range(n, idx)
    &&& triangles_disjoint(n, idx)
    &&& corners_outside_queue(n, q, idx)
    &&& edges_covered_once(n, q, idx)
    &&& idx.len() / 3 + queue_slack(q, n) == n - 2
}

/// The queue after queueing the arc from `a` to `b` when it spans two or more edges.
pub open spec fn cond_push(q: Seq<(usize, usize)>, a: int, b: int, n: int) -> Seq<(usize, usize)> {
    if arc_len(a, b, n) >= 2 {
        q.push((a as usize, b as usize))
    } else {
        q
    }
}

/// The index list with one more triangle.
pub open spec fn push_triangle(idx: Seq<u32>, a: int, b: int, c: int) -> Seq<u32> {
    idx.push(a as u32).push(b as u32).push(c as u32)
}

proof fn lemma_push_triangle(idx: Seq<u32>, a: int, b: int, c: int)
    requires
        idx.len() % 3 == 0,
        0 <= a <= u32::MAX,
        0 <= b <= u32::MAX,
        0 <= c <= u32::MAX,
    ensures
        push_triangle(idx, a, b, c).len() % 3 == 0,
        push_triangle(idx, a, b, c).len() / 3 == idx.len() / 3 + 1,
        triangle_of(push_triangle(idx, a, b, c), (idx.len() / 3) as int) == (a, b, c),
        forall|t: int|
            0 <= t < idx.len() / 3 ==> #[trigger] triangle_of(push_triangle(idx, a, b, c), t)
                == triangle_of(idx, t),
{
    let idx2 = push_triangle(idx, a, b, c);
    assert forall|t: int| 0 <= t < idx.len() / 3 implies #[trigger] triangle_of(idx2, t)
        == triangle_of(idx, t) by {
        assert(idx2[3 * t] == idx[3 * t]);
        assert(idx2[3 * t + 1] == idx[3 * t + 1]);
        assert(idx2[3 * t + 2] == idx[3 * t + 2]);
    }
}

proof fn lemma_cond_push_covering(q: Seq<(usize, usize)>, a: int, b: int, n: int, j: int)
    requires
        0 <= a < n,
        0 <= b < n,
        n <= usize::MAX,
    ensures
        arcs_covering(cond_push(q, a, b, n), j, n) == arcs_covering(q, j, n) + if arc_len(
            a,
            b,
            n,
        ) >= 2 && crate::rim_geometry::arc_contains_edge((a, b), j, n) {
            1int
        } else {
            0int
        },
{
    if arc_len(a, b, n) >= 2 {
        lemma_covering_push(q, (a as usize, b as usize), j, n);
    }
}

proof fn lemma_cond_push_slack(q: Seq<(usize, usize)>, a: int, b: int, n: int)
    requires
        0 <= a < n,
        0 <= b < n,
        n <= usize::MAX,
        arc_len(a, b, n) >= 1,
    ensures
        queue_slack(cond_push(q, a, b, n), n) == queue_slack(q, n) + arc_len(a, b, n) - 1,
{
    if arc_len(a, b, n) >= 2 {
        assert(q.push((a as usize, b as usize)).drop_last() =~= q);
    }
}

/// The elements of a queue after two conditional pushes.
proof fn lemma_two_pushes(q: Seq<(usize, usize)>, a: int, b: int, c: int, n: int)
    requires
        0 <= a < n,
        0 <= b < n,
        0 <= c < n,
        n <= usize::MAX,
    ensures
        ({
            let q3 = cond_push(cond_push(q, a, b, n), b, c, n);
            &&& q3.len() >= q.len()
            &&& forall|x: int| 0 <= x < q.len() ==> #[trigger] q3[x] == q[x]
            &&& forall|x: int|
                q.len() <= x < q3.len() ==> (queued_arc(#[trigger] q3[x]) == (a, b) && arc_len(
                    a,
                    b,
                    n,
                ) >= 2) || (queued_arc(q3[x]) == (b, c) && arc_len(b, c, n) >= 2)
        }),
{
    let q2 = cond_push(q, a, b, n);
    let q3 = cond_push(q2, b, c, n);
    assert forall|x: int| 0 <= x < q.len() implies #[trigger] q3[x] == q[x] by {
        assert(q2[x] == q[x]);
    }
    assert forall|x: int| q.len() <= x < q3.len() implies (queued_arc(#[trigger] q3[x]) == (a, b)
        && arc_len(a, b, n) >= 2) || (queued_arc(q3[x]) == (b, c) && arc_len(b, c, n) >= 2) by {
        if x < q2.len() {
            assert(q3[x] == q2[x]);
        }
    }
}

/// The first triangle with the arcs between its corners queued is a partial triangulation.
pub proof fn lemma_initial_partial(n: int, s1: int, s2: int, s3: int)
    requires
        3 <= n <= u32::MAX,
        0 <= s1 < s2 < s3 < n,
    ensures
        partial_triangulation(
            n,
            cond_push(cond_push(cond_push(Seq::empty(), s1, s2, n), s2, s3, n), s3, s1, n),
            push_triangle(Seq::empty(), s1, s2, s3),
        ),
{
    let q0: Seq<(usize, usize)> = Seq::empty();
    let q1 = cond_push(q0, s1, s2, n);
    let q2 = cond_push(q1, s2, s3, n);
    let q3 = cond_push(q2, s3, s1, n);
    let idx = push_triangle(Seq::<u32>::empty(), s1, s2, s3);
    let tri = (s1, s2, s3);
    lemma_push_triangle(Seq::empty(), s1, s2, s3);
    lemma_first_triangle(s1, s2, s3, n, 0);
    lemma_two_pushes(q0, s1, s2, s3, n);
    assert(forall|x: int| 0 <= x < q2.len() ==> #[trigger] q3[x] == q2[x]);
    assert forall|x: int| 0 <= x < q3.len() implies {
        &&& (#[trigger] q3[x]).0 < n
        &&& q3[x].1 < n
        &&& 2 <= arc_len(q3[x].0 as int, q3[x].1 as int, n) <= n - 2
        &&& corners_outside(tri, queued_arc(q3[x]), n)
    } by {
        if x < q2.len() {
            assert(q3[x] == q2[x]);
        }
    }
    assert forall|x: int, t: int| 0 <= x < q3.len() && 0 <= t < idx.len() / 3 implies corners_outside(
        #[trigger] triangle_of(idx, t),
        queued_arc(#[trigger] q3[x]),
        n,
    ) by {
        assert(t == 0);
    }
    assert forall|t: int| 0 <= t < idx.len() / 3 implies rim_triangle(#[trigger] triangle_of(idx, t), n) by {
        assert(t == 0);
    }
    assert forall|j: int| 0 <= j < idx.len() implies (#[trigger] idx[j] as int) < n by {
        assert(j == 0 || j == 1 || j == 2);
    }
    assert forall|j: int| 0 <= j < n implies #[trigger] arcs_covering(q3, j, n) + gap_edge_count(
        idx,
        (idx.len() / 3) as nat,
        j,
        n,
    ) == 1 by {
        lemma_first_triangle(s1, s2, s3, n, j);
        lemma_cond_push_covering(q0, s1, s2, n, j);
        lemma_cond_push_covering(q1, s2, s3, n, j);
        lemma_cond_push_covering(q2, s3, s1, n, j);
        reveal_with_fuel(gap_edge_count, 2);
    }
    lemma_cond_push_slack(q0, s1, s2, n);
    lemma_cond_push_slack(q1, s2, s3, n);
    lemma_cond_push_slack(q2, s3, s1, n);
}

/// What splitting the oldest queued arc asks: it is the arc from `s` to `e`, and `i` the
/// point `offset + 1` edges on from `s`, with at least one point after it inside the arc.
pub open spec fn split_ready(
    n: int,
    q: Seq<(usize, usize)>,
    s: int,
    i: int,
    e: int,
    offset: int,
) -> bool {
    &&& 3 <= n <= u32::MAX
    &&& q.len() > 0
    &&& queued_arc(q[0]) == (s, e)
    &&& 0 <= offset
    &&& offset + 2 <= arc_len(s, e, n)
    &&& i == if s + 1 + offset < n {
        s + 1 + offset
    } else {
        s + 1 + offset - n
    }
}

/// The queue after splitting the oldest arc at `i`.
pub open spec fn split_queue(q: Seq<(usize, usize)>, s: int, i: int, e: int, n: int) -> Seq<
    (usize, usize),
> {
    cond_push(cond_push(q.drop_first(), s, i, n), i, e, n)
}

/// Splitting the oldest queued arc keeps a partial triangulation a partial triangulation.
#[verifier::rlimit(40)]
pub proof fn lemma_split_partial(
    n: int,
    q: Seq<(usize, usize)>,
    idx: Seq<u32>,
    s: int,
    i: int,
    e: int,
    offset: int,
)
    requires
        partial_triangulation(n, q, idx),
        split_ready(n, q, s, i, e, offset),
    ensures
        partial_triangulation(n, split_queue(q, s, i, e, n), push_triangle(idx, s, i, e)),
{
    assert(q[0] == q[0]);
    lemma_split_arc(s, e, i, offset, n);
    lemma_push_triangle(idx, s, i, e);
    let q1 = q.drop_first();
    lemma_two_pushes(q1, s, i, e, n);
    lemma_split_queue_in_range(n, q, s, i, e, offset);
    lemma_split_triangles_in_range(n, q, idx, s, i, e, offset);
    lemma_split_disjoint(n, q, idx, s, i, e, offset);
    lemma_split_outside(n, q, idx, s, i, e, offset);
    lemma_split_covered(n, q, idx, s, i, e, offset);
    lemma_split_slack(n, q, idx, s, i, e, offset);
}

proof fn lemma_split_queue_in_range(n: int, q: Seq<(usize, usize)>, s: int, i: int, e: int, offset: int)
    requires
        queue_in_range(n, q),
        split_ready(n, q, s, i, e, offset),
    ensures
        queue_in_range(n, split_queue(q, s, i, e, n)),
{
    assert(q[0] == q[0]);
    lemma_split_arc(s, e, i, offset, n);
    let q1 = q.drop_first();
    let q3 = split_queue(q, s, i, e, n);
    lemma_two_pushes(q1, s, i, e, n);
    assert forall|x: int| 0 <= x < q3.len() implies {
        &&& (#[trigger] q3[x]).0 < n
        &&& q3[x].1 < n
        &&& 2 <= arc_len(q3[x].0 as int, q3[x].1 as int, n) <= n - 2
    } by {
        if x < q1.len() {
            assert(q3[x] == q1[x]);
            assert(q1[x] == q[x + 1]);
        }
    }
}

proof fn lemma_split_triangles_in_range(
    n: int,
    q: Seq<(usize, usize)>,
    idx: Seq<u32>,
    s: int,
    i: int,
    e: int,
    offset: int,
)
    requires
        queue_in_range(n, q),
        triangles_in_range(n, idx),
        split_ready(n, q, s, i, e, offset),
    ensures
        triangles_in_range(n, push_triangle(idx, s, i, e)),
{
    assert(q[0] == q[0]);
    lemma_split_arc(s, e, i, offset, n);
    lemma_push_triangle(idx, s, i, e);
    let idx2 = push_triangle(idx, s, i, e);
    let m = idx.len() / 3;
    assert forall|j: int| 0 <= j < idx2.len() implies (#[trigger] idx2[j] as int) < n by {
        if j < idx.len() {
            assert(idx2[j] == idx[j]);
        }
    }
    assert forall|t: int| 0 <= t < idx2.len() / 3 implies rim_triangle(
        #[trigger] triangle_of(idx2, t),
        n,
    ) by {
        if t < m {
            assert(triangle_of(idx2, t) == triangle_of(idx, t));
        }
    }
}

proof fn lemma_split_disjoint(
    n: int,
    q: Seq<(usize, usize)>,
    idx: Seq<u32>,
    s: int,
    i: int,
    e: int,
    offset: int,
)
    requires
        queue_in_range(n, q),
        triangles_in_range(n, idx),
        triangles_disjoint(n, idx),
        corners_outside_queue(n, q, idx),
        split_ready(n, q, s, i, e, offset),
    ensures
        triangles_disjoint(n, push_triangle(idx, s, i, e)),
{
    assert(q[0] == q[0]);
    lemma_split_arc(s, e, i, offset, n);
    lemma_push_triangle(idx, s, i, e);
    let idx2 = push_triangle(idx, s, i, e);
    let m = idx.len() / 3;
    let tri = (s, i, e);
    assert forall|t: int, u: int|
        0 <= t < idx2.len() / 3 && 0 <= u < idx2.len() / 3 && t != u implies within_gap(
        #[trigger] triangle_of(idx2, u),
        #[trigger] triangle_of(idx2, t),
        n,
    ) by {
        if t < m && u < m {
            assert(triangle_of(idx2, t) == triangle_of(idx, t));
            assert(triangle_of(idx2, u) == triangle_of(idx, u));
        } else if t == m {
            let uu = triangle_of(idx, u);
            assert(triangle_of(idx2, u) == uu);
            assert(corners_outside(uu, queued_arc(q[0]), n));
            assert(rim_triangle(uu, n));
            lemma_outside_in_closing_gap(s, i, e, uu, n);
        } else {
            let tt = triangle_of(idx, t);
            assert(triangle_of(idx2, t) == tt);
            assert(corners_outside(tt, queued_arc(q[0]), n));
            assert(rim_triangle(tt, n));
            lemma_arc_in_gap(tt, (s, e), tri, n);
        }
    }
}

proof fn lemma_split_outside(
    n: int,
    q: Seq<(usize, usize)>,
    idx: Seq<u32>,
    s: int,
    i: int,
    e: int,
    offset: int,
)
    requires
        queue_in_range(n, q),
        triangles_in_range(n, idx),
        corners_outside_queue(n, q, idx),
        edges_covered_once(n, q, idx),
        split_ready(n, q, s, i, e, offset),
    ensures
        corners_outside_queue(n, split_queue(q, s, i, e, n), push_triangle(idx, s, i, e)),
{
    assert(q[0] == q[0]);
    lemma_split_arc(s, e, i, offset, n);
    lemma_push_triangle(idx, s, i, e);
    let idx2 = push_triangle(idx, s, i, e);
    let m = idx.len() / 3;
    let q1 = q.drop_first();
    let q3 = split_queue(q, s, i, e, n);
    lemma_two_pushes(q1, s, i, e, n);
    assert forall|x: int, t: int| 0 <= x < q3.len() && 0 <= t < idx2.len() / 3 implies corners_outside(
        #[trigger] triangle_of(idx2, t),
        queued_arc(#[trigger] q3[x]),
        n,
    ) by {
        if x < q1.len() {
            assert(q3[x] == q1[x]);
            assert(q1[x] == q[x + 1]);
            if t < m {
                assert(triangle_of(idx2, t) == triangle_of(idx, t));
            } else {
                lemma_split_corner_outside_other_arc(n, q, idx, s, i, e, offset, x + 1);
            }
        } else {
            if t < m {
                let uu = triangle_of(idx, t);
                assert(triangle_of(idx2, t) == uu);
                assert(corners_outside(uu, queued_arc(q[0]), n));
            }
        }
    }
}

/// The corners of the new triangle lie strictly inside no other queued arc, since such an
/// arc would share a rim edge with the arc being split.
proof fn lemma_split_corner_outside_other_arc(
    n: int,
    q: Seq<(usize, usize)>,
    idx: Seq<u32>,
    s: int,
    i: int,
    e: int,
    offset: int,
    y: int,
)
    requires
        queue_in_range(n, q),
        edges_covered_once(n, q, idx),
        split_ready(n, q, s, i, e, offset),
        1 <= y < q.len(),
    ensures
        corners_outside((s, i, e), queued_arc(q[y]), n),
{
    assert(q[0] == q[0]);
    assert(q[y] == q[y]);
    lemma_split_arc(s, e, i, offset, n);
    let b = queued_arc(q[y]);
    let m = (idx.len() / 3) as nat;
    if arc_interior(b, s, n) {
        lemma_interior_edges(b, s, n);
        lemma_covering_two(q, y, s, n);
        lemma_gap_count_nonneg(idx, m, s, n);
        assert(arcs_covering(q, s, n) + gap_edge_count(idx, m, s, n) == 1);
    }
    if arc_interior(b, i, n) {
        lemma_interior_edges(b, i, n);
        lemma_covering_two(q, y, i, n);
        lemma_gap_count_nonneg(idx, m, i, n);
        assert(arcs_covering(q, i, n) + gap_edge_count(idx, m, i, n) == 1);
    }
    if arc_interior(b, e, n) {
        let pe = prev_point(e, n);
        lemma_interior_edges(b, e, n);
        lemma_covering_two(q, y, pe, n);
        lemma_gap_count_nonneg(idx, m, pe, n);
        assert(arcs_covering(q, pe, n) + gap_edge_count(idx, m, pe, n) == 1);
    }
}

proof fn lemma_split_covered(
    n: int,
    q: Seq<(usize, usize)>,
    idx: Seq<u32>,
    s: int,
    i: int,
    e: int,
    offset: int,
)
    requires
        queue_in_range(n, q),
        triangles_in_range(n, idx),
        edges_covered_once(n, q, idx),
        split_ready(n, q, s, i, e, offset),
    ensures
        edges_covered_once(n, split_queue(q, s, i, e, n), push_triangle(idx, s, i, e)),
{
    assert(q[0] == q[0]);
    lemma_split_arc(s, e, i, offset, n);
    lemma_push_triangle(idx, s, i, e);
    let idx2 = push_triangle(idx, s, i, e);
    let m = (idx.len() / 3) as nat;
    let q1 = q.drop_first();
    let q2 = cond_push(q1, s, i, n);
    let q3 = split_queue(q, s, i, e, n);
    assert forall|j: int| 0 <= j < n implies #[trigger] arcs_covering(q3, j, n) + gap_edge_count(
        idx2,
        (idx2.len() / 3) as nat,
        j,
        n,
    ) == 1 by {
        lemma_covering_front(q, j, n);
        lemma_cond_push_covering(q1, s, i, n, j);
        lemma_cond_push_covering(q2, i, e, n, j);
        lemma_gap_count_same(idx, idx2, m, j, n);
        assert(arcs_covering(q, j, n) + gap_edge_count(idx, m, j, n) == 1);
        assert(gap_edge_count(idx2, m + 1, j, n) == gap_edge_count(idx2, m, j, n) + if crate::rim_geometry::gap_edge(
            (s, i, e),
            j,
            n,
        ) {
            1int
        } else {
            0int
        });
    }
}

proof fn lemma_split_slack(
    n: int,
    q: Seq<(usize, usize)>,
    idx: Seq<u32>,
    s: int,
    i: int,
    e: int,
    offset: int,
)
    requires
        queue_in_range(n, q),
        triangles_in_range(n, idx),
        idx.len() / 3 + queue_slack(q, n) == n - 2,
        split_ready(n, q, s, i, e, offset),
    ensures
        push_triangle(idx, s, i, e).len() / 3 + queue_slack(split_queue(q, s, i, e, n), n) == n
            - 2,
{
    assert(q[0] == q[0]);
    lemma_split_arc(s, e, i, offset, n);
    lemma_push_triangle(idx, s, i, e);
    crate::random_triangle::lemma_queue_slack_front(q, n);
    let q1 = q.drop_first();
    lemma_cond_push_slack(q1, s, i, n);
    lemma_cond_push_slack(cond_push(q1, s, i, n), i, e, n);
}

/// A partial triangulation with nothing left queued is a triangulation of the polygon:
/// `n - 2` rim triangles on the rim points, no two overlapping, with every rim edge a
/// side of exactly one of them.
pub proof fn lemma_complete_triangulation(n: int, q: Seq<(usize, usize)>, idx: Seq<u32>)
    requires
        3 <= n,
        partial_triangulation(n, q, idx),
        q.len() == 0,
    ensures
        idx.len() == 3 * (n - 2),
        forall|j: int| 0 <= j < idx.len() ==> (#[trigger] idx[j] as int) < n,
        triangles_nondegenerate(idx),
        forall|s: int| 0 <= s < n - 2 ==> rim_triangle(#[trigger] triangle_of(idx, s), n),
        forall|j: int| 0 <= j < n ==> #[trigger] side_of_some_triangle(idx, n - 2, j, n),
        forall|j: int, s: int, u: int|
            0 <= j < n && 0 <= s < n - 2 && 0 <= u < n - 2 && #[trigger] has_rim_side(
                triangle_of(idx, s),
                j,
                n,
            ) && #[trigger] has_rim_side(triangle_of(idx, u), j, n) ==> s == u,
        forall|s: int, u: int|
            0 <= s < n - 2 && 0 <= u < n - 2 && s != u ==> within_gap(
                #[trigger] triangle_of(idx, u),
                #[trigger] triangle_of(idx, s),
                n,
            ),
{
    let m = (idx.len() / 3) as nat;
    assert(queue_slack(q, n) == 0);
    assert forall|j: int| 0 <= j < n implies #[trigger] side_of_some_triangle(idx, n - 2, j, n) by {
        assert(arcs_covering(q, j, n) == 0);
        assert(arcs_covering(q, j, n) + gap_edge_count(idx, m, j, n) == 1);
        lemma_gap_count_exact(idx, m, j, n);
        let s = choose|s: int| 0 <= s < m && gap_edge(#[trigger] triangle_of(idx, s), j, n);
        lemma_gap_edge_is_side(triangle_of(idx, s), j, n);
    }
    assert forall|j: int, s: int, u: int|
        0 <= j < n && 0 <= s < n - 2 && 0 <= u < n - 2 && #[trigger] has_rim_side(
            triangle_of(idx, s),
            j,
            n,
        ) && #[trigger] has_rim_side(triangle_of(idx, u), j, n) implies s == u by {
        assert(arcs_covering(q, j, n) == 0);
        assert(arcs_covering(q, j, n) + gap_edge_count(idx, m, j, n) == 1);
        lemma_gap_count_exact(idx, m, j, n);
        lemma_gap_edge_is_side(triangle_of(idx, s), j, n);
        lemma_gap_edge_is_side(triangle_of(idx, u), j, n);
    }
}

} // verus!
