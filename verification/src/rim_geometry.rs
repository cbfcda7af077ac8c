use vstd::prelude::*;
use crate::random_triangle::arc_len;
use crate::vertex::triangle_of;

verus! {

// Points on a circle are numbered 0 .. n in their order round the rim. An arc (s, e) is
// the way round from s forward to e; the rim edge j joins point j to the point after it.

/// The point after `j` on a rim of `n` points.
pub open spec fn next_point(j: int, n: int) -> int {
    if j + 1 == n {
        0
    } else {
        j + 1
    }
}

/// The point before `x` on a rim of `n` points.
pub open spec fn prev_point(x: int, n: int) -> int {
    if x == 0 {
        n - 1
    } else {
        x - 1
    }
}

/// Whether the rim edge from `j` to the next point lies along the arc `a`.
pub open spec fn arc_contains_edge(a: (int, int), j: int, n: int) -> bool {
    arc_len(a.0, j, n) < arc_len(a.0, a.1, n)
}

/// Whether the point `x` lies strictly between the ends of the arc `a`.
pub open spec fn arc_interior(a: (int, int), x: int, n: int) -> bool {
    0 < arc_len(a.0, x, n) < arc_len(a.0, a.1, n)
}

/// Whether the point `x` lies on the arc `a`, ends included.
pub open spec fn arc_closure(a: (int, int), x: int, n: int) -> bool {
    arc_len(a.0, x, n) <= arc_len(a.0, a.1, n)
}

/// A triangle of three rim points listed in their order round the rim: its three gaps
/// (the arcs between consecutive corners) each span at least one edge and together go
/// once round.
pub open spec fn rim_triangle(t: (int, int, int), n: int) -> bool {
    &&& 0 <= t.0 < n
    &&& 0 <= t.1 < n
    &&& 0 <= t.2 < n
    &&& arc_len(t.0, t.1, n) >= 1
    &&& arc_len(t.1, t.2, n) >= 1
    &&& arc_len(t.2, t.0, n) >= 1
    &&& arc_len(t.0, t.1, n) + arc_len(t.1, t.2, n) + arc_len(t.2, t.0, n) == n
}

/// Whether all corners of `u` lie on one gap of `t`, ends included. For triangles with
/// their corners on a circle this says that the two triangles do not overlap: at most they
/// share corners or a side.
pub open spec fn within_gap(u: (int, int, int), t: (int, int, int), n: int) -> bool {
    ||| (arc_closure((t.0, t.1), u.0, n) && arc_closure((t.0, t.1), u.1, n) && arc_closure(
        (t.0, t.1),
        u.2,
        n,
    ))
    ||| (arc_closure((t.1, t.2), u.0, n) && arc_closure((t.1, t.2), u.1, n) && arc_closure(
        (t.1, t.2),
        u.2,
        n,
    ))
    ||| (arc_closure((t.2, t.0), u.0, n) && arc_closure((t.2, t.0), u.1, n) && arc_closure(
        (t.2, t.0),
        u.2,
        n,
    ))
}

/// Whether the rim edge from `j` to the next point is a side of `t`: both its ends are
/// corners of `t`.
pub open spec fn has_rim_side(t: (int, int, int), j: int, n: int) -> bool {
    &&& (t.0 == j || t.1 == j || t.2 == j)
    &&& (t.0 == next_point(j, n) || t.1 == next_point(j, n) || t.2 == next_point(j, n))
}

/// Whether the rim edge from `j` is a side of one of the first `count` triangles of the
/// index list.
pub open spec fn side_of_some_triangle(idx: Seq<u32>, count: int, j: int, n: int) -> bool {
    exists|s: int| 0 <= s < count && has_rim_side(#[trigger] triangle_of(idx, s), j, n)
}

/// Whether a gap of `t` that spans a single edge starts at `j`.
pub open spec fn gap_edge(t: (int, int, int), j: int, n: int) -> bool {
    ||| (t.0 == j && arc_len(t.0, t.1, n) == 1)
    ||| (t.1 == j && arc_len(t.1, t.2, n) == 1)
    ||| (t.2 == j && arc_len(t.2, t.0, n) == 1)
}

/// Whether no corner of `t` lies strictly inside the arc `a`.
pub open spec fn corners_outside(t: (int, int, int), a: (int, int), n: int) -> bool {
    !arc_interior(a, t.0, n) && !arc_interior(a, t.1, n) && !arc_interior(a, t.2, n)
}

/// The arc of a queued pair of points.
pub open spec fn queued_arc(p: (usize, usize)) -> (int, int) {
    (p.0 as int, p.1 as int)
}

/// How many of the queued arcs contain the rim edge from `j`.
pub open spec fn arcs_covering(q: Seq<(usize, usize)>, j: int, n: int) -> int
    decreases q.len(),
{
    if q.len() == 0 {
        0
    } else {
        arcs_covering(q.drop_last(), j, n) + if arc_contains_edge(queued_arc(q.last()), j, n) {
            1int
        } else {
            0int
        }
    }
}

/// How many of the first `m` triangles of the index list have a single-edge gap starting at `j`.
pub open spec fn gap_edge_count(idx: Seq<u32>, m: nat, j: int, n: int) -> int
    decreases m,
{
    if m == 0 {
        0
    } else {
        gap_edge_count(idx, (m - 1) as nat, j, n) + if gap_edge(
            triangle_of(idx, m - 1),
            j,
            n,
        ) {
            1int
        } else {
            0int
        }
    }
}

pub proof fn lemma_covering_front(q: Seq<(usize, usize)>, j: int, n: int)
    requires
        q.len() > 0,
    ensures
        arcs_covering(q, j, n) == (if arc_contains_edge(queued_arc(q[0]), j, n) {
            1int
        } else {
            0int
        }) + arcs_covering(q.drop_first(), j, n),
    decreases q.len(),
{
    if q.len() > 1 {
        lemma_covering_front(q.drop_last(), j, n);
        assert(q.drop_last().drop_first() =~= q.drop_first().drop_last());
    } else {
        assert(q.drop_first() =~= q.drop_last());
    }
}

pub proof fn lemma_covering_nonneg(q: Seq<(usize, usize)>, j: int, n: int)
    ensures
        arcs_covering(q, j, n) >= 0,
    decreases q.len(),
{
    if q.len() > 0 {
        lemma_covering_nonneg(q.drop_last(), j, n);
    }
}

pub proof fn lemma_covering_member(q: Seq<(usize, usize)>, y: int, j: int, n: int)
    requires
        0 <= y < q.len(),
        arc_contains_edge(queued_arc(q[y]), j, n),
    ensures
        arcs_covering(q, j, n) >= 1,
    decreases q.len(),
{
    if y == q.len() - 1 {
        lemma_covering_nonneg(q.drop_last(), j, n);
    } else {
        assert(q.drop_last()[y] == q[y]);
        lemma_covering_member(q.drop_last(), y, j, n);
    }
}

/// Two different queued arcs, the first and another, never share a rim edge as long as no
/// edge is covered twice.
pub proof fn lemma_covering_two(q: Seq<(usize, usize)>, y: int, j: int, n: int)
    requires
        1 <= y < q.len(),
        arc_contains_edge(queued_arc(q[0]), j, n),
        arc_contains_edge(queued_arc(q[y]), j, n),
    ensures
        arcs_covering(q, j, n) >= 2,
{
    lemma_covering_front(q, j, n);
    assert(q.drop_first()[y - 1] == q[y]);
    lemma_covering_member(q.drop_first(), y - 1, j, n);
}

pub proof fn lemma_covering_push(q: Seq<(usize, usize)>, p: (usize, usize), j: int, n: int)
    ensures
        arcs_covering(q.push(p), j, n) == arcs_covering(q, j, n) + if arc_contains_edge(
            queued_arc(p),
            j,
            n,
        ) {
            1int
        } else {
            0int
        },
{
    assert(q.push(p).drop_last() =~= q);
}

pub proof fn lemma_gap_count_nonneg(idx: Seq<u32>, m: nat, j: int, n: int)
    ensures
        gap_edge_count(idx, m, j, n) >= 0,
    decreases m,
{
    if m > 0 {
        lemma_gap_count_nonneg(idx, (m - 1) as nat, j, n);
    }
}

/// The count over the first `m` triangles depends only on those triangles.
pub proof fn lemma_gap_count_same(idx: Seq<u32>, idx2: Seq<u32>, m: nat, j: int, n: int)
    requires
        forall|t: int| 0 <= t < m ==> #[trigger] triangle_of(idx, t) == triangle_of(idx2, t),
    ensures
        gap_edge_count(idx, m, j, n) == gap_edge_count(idx2, m, j, n),
    decreases m,
{
    if m > 0 {
        assert(triangle_of(idx, m - 1) == triangle_of(idx2, m - 1));
        lemma_gap_count_same(idx, idx2, (m - 1) as nat, j, n);
    }
}

/// A count of zero means no such triangle; a count of one means exactly one.
pub proof fn lemma_gap_count_exact(idx: Seq<u32>, m: nat, j: int, n: int)
    ensures
        gap_edge_count(idx, m, j, n) == 0 ==> forall|t: int|
            0 <= t < m ==> !gap_edge(#[trigger] triangle_of(idx, t), j, n),
        gap_edge_count(idx, m, j, n) == 1 ==> (exists|t: int|
            0 <= t < m && gap_edge(#[trigger] triangle_of(idx, t), j, n)),
        gap_edge_count(idx, m, j, n) == 1 ==> forall|t: int, u: int|
            0 <= t < m && 0 <= u < m && gap_edge(#[trigger] triangle_of(idx, t), j, n) && gap_edge(
                #[trigger] triangle_of(idx, u),
                j,
                n,
            ) ==> t == u,
    decreases m,
{
    if m > 0 {
        let m1 = (m - 1) as nat;
        lemma_gap_count_exact(idx, m1, j, n);
        lemma_gap_count_nonneg(idx, m1, j, n);
        if gap_edge(triangle_of(idx, m - 1), j, n) {
            if gap_edge_count(idx, m, j, n) == 1 {
                assert(gap_edge_count(idx, m1, j, n) == 0);
                assert(gap_edge(triangle_of(idx, m - 1), j, n));
            }
        }
    }
}

/// For a rim triangle, a rim edge is a side exactly when a single-edge gap starts there.
pub proof fn lemma_gap_edge_is_side(t: (int, int, int), j: int, n: int)
    requires
        rim_triangle(t, n),
        n >= 3,
        0 <= j < n,
    ensures
        has_rim_side(t, j, n) <==> gap_edge(t, j, n),
{
}

/// A point strictly inside an arc has the edges on both its sides in the arc.
pub proof fn lemma_interior_edges(a: (int, int), x: int, n: int)
    requires
        0 <= a.0 < n,
        0 <= a.1 < n,
        0 <= x < n,
        arc_interior(a, x, n),
    ensures
        arc_contains_edge(a, x, n),
        arc_contains_edge(a, prev_point(x, n), n),
{
}

/// When no corner of the rim triangle `u` lies strictly inside the arc `a`, the whole arc
/// lies on one gap of `u`, and with it any triangle whose corners lie on the arc.
pub proof fn lemma_arc_in_gap(u: (int, int, int), a: (int, int), p: (int, int, int), n: int)
    requires
        rim_triangle(u, n),
        0 <= a.0 < n,
        0 <= a.1 < n,
        1 <= arc_len(a.0, a.1, n) < n,
        corners_outside(u, a, n),
        0 <= p.0 < n,
        0 <= p.1 < n,
        0 <= p.2 < n,
        arc_closure(a, p.0, n),
        arc_closure(a, p.1, n),
        arc_closure(a, p.2, n),
    ensures
        within_gap(p, u, n),
{
}

/// The triangle that closes off the arc from `s` to `e` with a point `i` inside it:
/// everything with no corner strictly inside the arc lies on its gap from `e` back to `s`.
pub proof fn lemma_outside_in_closing_gap(s: int, i: int, e: int, u: (int, int, int), n: int)
    requires
        0 <= s < n,
        0 <= e < n,
        0 <= u.0 < n,
        0 <= u.1 < n,
        0 <= u.2 < n,
        1 <= arc_len(s, e, n) < n,
        corners_outside(u, (s, e), n),
    ensures
        arc_closure((e, s), u.0, n),
        arc_closure((e, s), u.1, n),
        arc_closure((e, s), u.2, n),
{
}


/// The first triangle `s1, s2, s3` and the three arcs between its corners: each rim edge
/// lies on exactly one of the arcs; an arc of a single edge is a side of the triangle, the
/// others are left open; and no corner lies strictly inside an arc.
pub proof fn lemma_first_triangle(s1: int, s2: int, s3: int, n: int, j: int)
    requires
        0 <= s1 < s2 < s3 < n,
        0 <= j < n,
    ensures
        rim_triangle((s1, s2, s3), n),
        arc_len(s1, s2, n) <= n - 2,
        arc_len(s2, s3, n) <= n - 2,
        arc_len(s3, s1, n) <= n - 2,
        (if arc_len(s1, s2, n) >= 2 && arc_contains_edge((s1, s2), j, n) {
            1int
        } else {
            0int
        }) + (if arc_len(s2, s3, n) >= 2 && arc_contains_edge((s2, s3), j, n) {
            1int
        } else {
            0int
        }) + (if arc_len(s3, s1, n) >= 2 && arc_contains_edge((s3, s1), j, n) {
            1int
        } else {
            0int
        }) + (if gap_edge((s1, s2, s3), j, n) {
            1int
        } else {
            0int
        }) == 1,
        corners_outside((s1, s2, s3), (s1, s2), n),
        corners_outside((s1, s2, s3), (s2, s3), n),
        corners_outside((s1, s2, s3), (s3, s1), n),
{
}

/// Splitting the arc from `s` to `e` (of `L` edges) at the point `i`, `offset + 1` edges on
/// from `s`: the triangle `s, i, e` is a rim triangle; the two new arcs are the parts of
/// the old one before and after `i`; each rim edge of the old arc lies on exactly one new
/// arc of two or more edges or is a single-edge gap of the triangle; and no corner of the
/// triangle lies strictly inside a new arc.
pub proof fn lemma_split_arc(s: int, e: int, i: int, offset: int, n: int)
    requires
        0 <= s < n,
        0 <= e < n,
        2 <= arc_len(s, e, n) <= n - 2,
        0 <= offset,
        offset + 2 <= arc_len(s, e, n),
        i == if s + 1 + offset < n {
            s + 1 + offset
        } else {
            s + 1 + offset - n
        },
    ensures
        0 <= i < n,
        arc_len(s, i, n) == 1 + offset,
        arc_len(i, e, n) == arc_len(s, e, n) - 1 - offset,
        arc_interior((s, e), i, n),
        rim_triangle((s, i, e), n),
        forall|j: int|
            0 <= j < n ==> (if arc_contains_edge((s, e), j, n) {
                1int
            } else {
                0int
            }) == (if arc_len(s, i, n) >= 2 && arc_contains_edge((s, i), j, n) {
                1int
            } else {
                0int
            }) + (if arc_len(i, e, n) >= 2 && arc_contains_edge((i, e), j, n) {
                1int
            } else {
                0int
            }) + (if gap_edge((s, i, e), j, n) {
                1int
            } else {
                0int
            }),
        forall|x: int| 0 <= x < n && arc_interior((s, i), x, n) ==> arc_interior((s, e), x, n),
        forall|x: int| 0 <= x < n && arc_interior((i, e), x, n) ==> arc_interior((s, e), x, n),
        corners_outside((s, i, e), (s, i), n),
        corners_outside((s, i, e), (i, e), n),
        arc_contains_edge((s, e), s, n),
        arc_contains_edge((s, e), i, n),
        arc_contains_edge((s, e), prev_point(e, n), n),
        arc_closure((s, e), s, n),
        arc_closure((s, e), i, n),
        arc_closure((s, e), e, n),
{
}
} // verus!
