use vstd::prelude::*;
use crate::partial_triangulation::{
    cond_push, lemma_complete_triangulation, lemma_initial_partial, lemma_split_partial,
    partial_triangulation, push_triangle, split_queue, split_ready,
};
use crate::rim_geometry::{has_rim_side, rim_triangle, side_of_some_triangle, within_gap};
use crate::vertex::{
    flatten_triangles, lemma_flatten_triangle, spec_generate_circle, strip_triangle,
    strip_triangle_count, triangle_of, TriangulationType,
};

verus! {

// The strip triangulation seen as a sequence of splits: after the first triangle a single
// arc of the rim is left open, and each further triangle cuts one rim edge off its lower
// or its upper end, alternately, until the arc is a single edge.

/// `t` with its corners in their order round the rim: `t` itself when they are, otherwise
/// `t` with its last two corners swapped.
pub open spec fn rim_order(t: (int, int, int), n: int) -> (int, int, int) {
    if rim_triangle(t, n) {
        t
    } else {
        (t.0, t.2, t.1)
    }
}

/// Whether `t` and `u` have the same three corners.
pub open spec fn same_corners(t: (int, int, int), u: (int, int, int)) -> bool {
    ||| t == u
    ||| t == (u.0, u.2, u.1)
    ||| t == (u.1, u.0, u.2)
    ||| t == (u.1, u.2, u.0)
    ||| t == (u.2, u.0, u.1)
    ||| t == (u.2, u.1, u.0)
}

/// `t` is `u` with its corners listed the other way round.
spec fn reversed_of(t: (int, int, int), u: (int, int, int)) -> bool {
    ||| t == (u.0, u.2, u.1)
    ||| t == (u.1, u.0, u.2)
    ||| t == (u.2, u.1, u.0)
}

/// `t` is `u` with its corners listed from another one on, in the same direction.
spec fn rotation_of(t: (int, int, int), u: (int, int, int)) -> bool {
    ||| t == u
    ||| t == (u.1, u.2, u.0)
    ||| t == (u.2, u.0, u.1)
}

/// The open arc of the rim after `k` strip triangles.
spec fn strip_arc(n: int, k: int) -> (int, int) {
    ((k + 1) / 2, n - 1 - k / 2)
}

/// The `k`-th strip triangle with its corners in rim order: the first cuts off the rim
/// edges at point 0, the later ones the edge at the upper or the lower end of the open arc.
spec fn strip_split_triangle(n: int, k: int) -> (int, int, int) {
    if k == 0 {
        (0, 1, n - 1)
    } else if k % 2 == 1 {
        (strip_arc(n, k).0, strip_arc(n, k).1 - 1, strip_arc(n, k).1)
    } else {
        (strip_arc(n, k).0, strip_arc(n, k).0 + 1, strip_arc(n, k).1)
    }
}

/// The arcs still open after `k` strip triangles.
spec fn strip_split_queue(n: int, k: int) -> Seq<(usize, usize)> {
    if n - 1 - k >= 2 {
        seq![(strip_arc(n, k).0 as usize, strip_arc(n, k).1 as usize)]
    } else {
        Seq::empty()
    }
}

/// The index list of the first `k` strip triangles in rim order.
spec fn strip_split_indices(n: int, k: int) -> Seq<u32> {
    flatten_triangles(k as nat, |s: int| strip_split_triangle(n, s))
}

proof fn lemma_flatten_push(k: nat, tri: spec_fn(int) -> (int, int, int))
    ensures
        flatten_triangles(k + 1, tri) == push_triangle(
            flatten_triangles(k, tri),
            tri(k as int).0,
            tri(k as int).1,
            tri(k as int).2,
        ),
{
    let f1 = flatten_triangles(k + 1, tri);
    let p = push_triangle(flatten_triangles(k, tri), tri(k as int).0, tri(k as int).1, tri(k as int).2);
    assert forall|j: int| 0 <= j < f1.len() implies f1[j] == p[j] by {
        if j >= 3 * k {
            assert(j / 3 == k);
        }
    }
    assert(f1 =~= p);
}

/// After each of the first `k` strip triangles the triangles so far and the open arc form a
/// partial triangulation.
proof fn lemma_strip_splits(n: int, k: int)
    requires
        3 <= n <= u32::MAX,
        1 <= k <= n - 2,
    ensures
        partial_triangulation(n, strip_split_queue(n, k), strip_split_indices(n, k)),
    decreases k,
{
    let tri = |s: int| strip_split_triangle(n, s);
    lemma_flatten_push((k - 1) as nat, tri);
    if k == 1 {
        lemma_initial_partial(n, 0, 1, n - 1);
        let q0: Seq<(usize, usize)> = Seq::empty();
        let q3 = cond_push(cond_push(cond_push(q0, 0, 1, n), 1, n - 1, n), n - 1, 0, n);
        assert(q3 =~= strip_split_queue(n, 1));
        assert(strip_split_indices(n, 0) =~= Seq::<u32>::empty());
    } else {
        lemma_strip_splits(n, k - 1);
        let a = strip_arc(n, k - 1);
        assert(a.1 - a.0 == n - k);
        let q = strip_split_queue(n, k - 1);
        let idx = strip_split_indices(n, k - 1);
        let i = if (k - 1) % 2 == 1 {
            a.1 - 1
        } else {
            a.0 + 1
        };
        let offset = if (k - 1) % 2 == 1 {
            a.1 - a.0 - 2
        } else {
            0int
        };
        assert(split_ready(n, q, a.0, i, a.1, offset));
        lemma_split_partial(n, q, idx, a.0, i, a.1, offset);
        assert(split_queue(q, a.0, i, a.1, n) =~= strip_split_queue(n, k));
        assert(strip_split_triangle(n, k - 1) == (a.0, i, a.1));
    }
}

/// For `n` of three or more, the `s`-th strip triangle (below `n - 2`) is the `s`-th split
/// triangle with its corners listed the other way round.
proof fn lemma_strip_reverses(n: nat, s: int)
    requires
        3 <= n <= u32::MAX,
        0 <= s < n - 2,
    ensures
        reversed_of(
            triangle_of(spec_generate_circle(TriangulationType::Strip, n).1, s),
            triangle_of(strip_split_indices(n as int, n - 2), s),
        ),
{
    let m = n as int;
    lemma_flatten_triangle(strip_triangle_count(n), |t: int| strip_triangle(n, t), s);
    lemma_flatten_triangle((m - 2) as nat, |t: int| strip_split_triangle(m, t), s);
    let b = strip_split_triangle(m, s);
    let x = strip_triangle(n, s);
    if s == 0 {
    } else if s <= 2 * crate::vertex::strip_steps(n) {
        if s % 2 == 1 {
            assert(1 + (s - 1) / 2 == (s + 1) / 2);
            assert(s / 2 == (s - 1) / 2);
        } else {
            assert(1 + (s - 1) / 2 == s / 2);
            assert((s + 1) / 2 == s / 2);
        }
        assert(x == (b.0, b.2, b.1));
    } else {
        assert(m % 2 == 0 && s == m - 3);
        assert(x == (b.1, b.0, b.2));
    }
}

/// A rim triangle listed the other way round is not in rim order, and putting it back in
/// rim order gives the same triangle listed from one of its corners.
proof fn lemma_rim_order_reversed(x: (int, int, int), b: (int, int, int), n: int)
    requires
        3 <= n,
        rim_triangle(b, n),
        reversed_of(x, b),
    ensures
        rotation_of(rim_order(x, n), b),
        rim_triangle(rim_order(x, n), n),
{
    assert(!rim_triangle(x, n));
}

/// The strip triangulation of `n` rim points: its first `n - 2` triangles, each put in rim
/// order, are rim triangles that cover the polygon exactly once. Every rim edge is a side
/// of exactly one of them, and no two overlap (all corners of one lie on a single gap of
/// the other). For an even `n` these are all the triangles; for an odd `n` one more follows,
/// with the same corners as the triangle before it.
pub proof fn lemma_strip_triangulates(n: nat)
    requires
        3 <= n <= u32::MAX,
    ensures
        ({
            let idx = spec_generate_circle(TriangulationType::Strip, n).1;
            let m = n as int;
            &&& forall|s: int|
                0 <= s < m - 2 ==> rim_triangle(rim_order(#[trigger] triangle_of(idx, s), m), m)
            &&& forall|j: int| 0 <= j < m ==> #[trigger] side_of_some_triangle(idx, m - 2, j, m)
            &&& forall|j: int, s: int, u: int|
                0 <= j < m && 0 <= s < m - 2 && 0 <= u < m - 2 && #[trigger] has_rim_side(
                    triangle_of(idx, s),
                    j,
                    m,
                ) && #[trigger] has_rim_side(triangle_of(idx, u), j, m) ==> s == u
            &&& forall|s: int, u: int|
                0 <= s < m - 2 && 0 <= u < m - 2 && s != u ==> within_gap(
                    #[trigger] triangle_of(idx, u),
                    rim_order(#[trigger] triangle_of(idx, s), m),
                    m,
                )
            &&& m % 2 == 0 ==> idx.len() == 3 * (m - 2)
            &&& m % 2 == 1 ==> idx.len() == 3 * (m - 1) && same_corners(
                triangle_of(idx, m - 2),
                triangle_of(idx, m - 3),
            )
        }),
{
    let m = n as int;
    let idx = spec_generate_circle(TriangulationType::Strip, n).1;
    let b = strip_split_indices(m, m - 2);
    lemma_strip_splits(m, m - 2);
    lemma_complete_triangulation(m, strip_split_queue(m, m - 2), b);
    assert forall|s: int| 0 <= s < m - 2 implies reversed_of(#[trigger] triangle_of(idx, s), triangle_of(b, s))
        && rotation_of(rim_order(triangle_of(idx, s), m), triangle_of(b, s))
        && rim_triangle(rim_order(triangle_of(idx, s), m), m) by {
        lemma_strip_reverses(n, s);
        lemma_rim_order_reversed(triangle_of(idx, s), triangle_of(b, s), m);
    }
    assert forall|j: int| 0 <= j < m implies #[trigger] side_of_some_triangle(idx, m - 2, j, m) by {
        assert(side_of_some_triangle(b, m - 2, j, m));
        let s = choose|s: int| 0 <= s < m - 2 && has_rim_side(#[trigger] triangle_of(b, s), j, m);
        assert(reversed_of(triangle_of(idx, s), triangle_of(b, s)));
        assert(has_rim_side(triangle_of(idx, s), j, m));
    }
    assert forall|j: int, s: int, u: int|
        0 <= j < m && 0 <= s < m - 2 && 0 <= u < m - 2 && #[trigger] has_rim_side(
            triangle_of(idx, s),
            j,
            m,
        ) && #[trigger] has_rim_side(triangle_of(idx, u), j, m) implies s == u by {
        assert(reversed_of(triangle_of(idx, s), triangle_of(b, s)));
        assert(reversed_of(triangle_of(idx, u), triangle_of(b, u)));
        assert(has_rim_side(triangle_of(b, s), j, m));
        assert(has_rim_side(triangle_of(b, u), j, m));
    }
    assert forall|s: int, u: int| 0 <= s < m - 2 && 0 <= u < m - 2 && s != u implies within_gap(
        #[trigger] triangle_of(idx, u),
        rim_order(#[trigger] triangle_of(idx, s), m),
        m,
    ) by {
        assert(reversed_of(triangle_of(idx, s), triangle_of(b, s)));
        assert(reversed_of(triangle_of(idx, u), triangle_of(b, u)));
        assert(rotation_of(rim_order(triangle_of(idx, s), m), triangle_of(b, s)));
        assert(within_gap(triangle_of(b, u), triangle_of(b, s), m));
    }
    if m % 2 == 1 {
        lemma_flatten_triangle(strip_triangle_count(n), |t: int| strip_triangle(n, t), m - 2);
        lemma_flatten_triangle(strip_triangle_count(n), |t: int| strip_triangle(n, t), m - 3);
        assert((m - 4) / 2 + 1 == (m - 3) / 2);
    }
}

} // verus!
