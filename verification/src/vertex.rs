use vstd::prelude::*;
use std::collections::VecDeque;

verus! {

/// The ways in which a disc of points can be cut into triangles.
#[derive(Debug, Clone, Copy, PartialEq, Eq, Structural)]
pub enum TriangulationType {
    Fan,
    Strip,
    MaxArea,
}

/// The triangulation type that follows `t` in the cycle Fan, Strip, MaxArea, Fan, ...
pub open spec fn spec_next_type(t: TriangulationType) -> TriangulationType {
    match t {
        TriangulationType::Fan => TriangulationType::Strip,
        TriangulationType::Strip => TriangulationType::MaxArea,
        TriangulationType::MaxArea => TriangulationType::Fan,
    }
}

impl TriangulationType {
    /// Advances to the next triangulation type, wrapping from `MaxArea` back to `Fan`.
    pub fn next(&mut self)
        ensures
            *final(self) == spec_next_type(*old(self)),
    {
        match self {
            TriangulationType::Fan => *self = TriangulationType::Strip,
            TriangulationType::Strip => *self = TriangulationType::MaxArea,
            TriangulationType::MaxArea => *self = TriangulationType::Fan,
        }
    }
}

/// The types follow one another as Fan, Strip, MaxArea and back to Fan: stepping through
/// them three times comes back to where it started, and no fewer steps do.
pub proof fn lemma_next_type_cycle(t: TriangulationType)
    ensures
        spec_next_type(TriangulationType::Fan) == TriangulationType::Strip,
        spec_next_type(TriangulationType::Strip) == TriangulationType::MaxArea,
        spec_next_type(TriangulationType::MaxArea) == TriangulationType::Fan,
        spec_next_type(spec_next_type(spec_next_type(t))) == t,
        spec_next_type(t) != t,
        spec_next_type(spec_next_type(t)) != t,
{
}

/// Where a vertex of a triangulated disc lies, described exactly; the floating point
/// position on a disc of a given radius is derived from this description.
#[derive(Debug, Clone, Copy, PartialEq, Eq, Structural)]
pub enum CirclePoint {
    /// The centre of the disc.
    Center,
    /// The `index`-th of `count` points spaced evenly on the rim, at the angle
    /// `index * 2π / count` counted from the x axis towards the y axis.
    Rim { index: usize, count: usize },
    /// The rim point at `degrees` degrees, counted from the y axis towards the x axis.
    Bearing { degrees: u32 },
    /// The midpoint of the chord between the vertices with indices `first` and `second`,
    /// pushed out along its direction onto the rim.
    ArcMidpoint { first: usize, second: usize },
}

/// The `r`-th corner (0, 1 or 2) of a triangle given as three vertex indices.
pub open spec fn corner(t: (int, int, int), r: int) -> int {
    if r == 0 {
        t.0
    } else if r == 1 {
        t.1
    } else {
        t.2
    }
}

/// The index list of a sequence of triangles: the corners of each triangle in turn,
/// each stored as a `u32`.
pub open spec fn flatten_triangles(count: nat, tri: spec_fn(int) -> (int, int, int)) -> Seq<u32> {
    Seq::new(3 * count, |j: int| corner(tri(j / 3), j % 3) as u32)
}

// ---------------------------------------------------------------------------------------
// Fan: a centre vertex joined to every edge of the rim.
// ---------------------------------------------------------------------------------------

/// The vertices of the fan triangulation of `n` points: the centre, then `n - 1` rim points.
pub open spec fn fan_points(n: nat) -> Seq<CirclePoint> {
    Seq::new(
        n,
        |j: int|
            if j == 0 {
                CirclePoint::Center
            } else {
                CirclePoint::Rim { index: (j - 1) as usize, count: (n - 1) as usize }
            },
    )
}

/// The `t`-th fan triangle as it is generated: centre, rim point `t`, rim point `t + 1`,
/// the last one closing the fan back to the first rim point.
pub open spec fn fan_triangle(n: nat, t: int) -> (int, int, int) {
    if t < n - 2 {
        (0, t + 1, t + 2)
    } else {
        (0, n - 1, 1)
    }
}

/// The fan's index list in generation order (the result lists it back to front).
pub open spec fn fan_corners(n: nat) -> Seq<u32> {
    flatten_triangles((n - 1) as nat, |t: int| fan_triangle(n, t))
}

// ---------------------------------------------------------------------------------------
// Strip: triangles zig-zagging across the disc from point 0 towards point n / 2.
// ---------------------------------------------------------------------------------------

/// The vertices of the strip triangulation of `n` points: `n` evenly spaced rim points.
pub open spec fn rim_points(n: nat) -> Seq<CirclePoint> {
    Seq::new(n, |j: int| CirclePoint::Rim { index: j as usize, count: n as usize })
}

/// The exclusive upper bound of the zig-zag counter `i` (which starts at 1).
pub open spec fn strip_loop_end(n: nat) -> int {
    n / 2 + n % 2 - 1
}

/// The number of zig-zag steps; each step adds two triangles.
pub open spec fn strip_steps(n: nat) -> nat {
    if strip_loop_end(n) >= 1 {
        (strip_loop_end(n) - 1) as nat
    } else {
        0
    }
}

/// The number of strip triangles.
pub open spec fn strip_triangle_count(n: nat) -> nat {
    2 + 2 * strip_steps(n)
}

/// The `t`-th strip triangle.
pub open spec fn strip_triangle(n: nat, t: int) -> (int, int, int) {
    if t == 0 {
        (0, n - 1, 1)
    } else if t <= 2 * strip_steps(n) {
        let i = 1 + (t - 1) / 2;
        if (t - 1) % 2 == 0 {
            (i, n - i, n - i - 1)
        } else {
            (i, n - i - 1, i + 1)
        }
    } else {
        (n as int / 2, n as int / 2 - 1, n as int / 2 + 1)
    }
}

/// The strip's index list.
pub open spec fn strip_corners(n: nat) -> Seq<u32> {
    flatten_triangles(strip_triangle_count(n), |t: int| strip_triangle(n, t))
}

// ---------------------------------------------------------------------------------------
// MaxArea: a seed polygon on the rim, whose edges are split breadth first.
// ---------------------------------------------------------------------------------------

/// The number of seed points: 3, 4 or 6, chosen by `n % 3`.
pub open spec fn seed_count(n: nat) -> nat {
    if n % 3 == 0 {
        3
    } else if n % 3 == 1 {
        4
    } else {
        6
    }
}

/// The `j`-th edge (arc) in the breadth-first order in which edges are split.
/// The first `k` arcs are the edges of the seed polygon; the two arcs that splitting
/// arc `p` creates come at positions `k + 2p` and `k + 2p + 1`, and the vertex that
/// splits arc `p` has index `k + p`.
pub open spec fn max_area_arc(k: nat, j: nat) -> (int, int)
    decreases j,
{
    if j < k || k == 0 {
        (j as int, (j as int + 1) % (k as int))
    } else {
        let p = ((j - k) / 2) as nat;
        let a = max_area_arc(k, p);
        if (j - k) % 2 == 0 {
            (a.0, k + p as int)
        } else {
            (k + p as int, a.1)
        }
    }
}

/// The `j`-th vertex of the max-area triangulation with `k` seed points.
pub open spec fn max_area_point(k: nat, j: int) -> CirclePoint {
    if j < k {
        CirclePoint::Bearing { degrees: (j * (360int / (k as int))) as u32 }
    } else {
        let a = max_area_arc(k, (j - k) as nat);
        CirclePoint::ArcMidpoint { first: a.0 as usize, second: a.1 as usize }
    }
}

/// The number of vertices of the max-area triangulation of `n` points: `n`, unless the
/// seed polygon alone already has more.
pub open spec fn max_area_vertex_count(n: nat) -> nat {
    if n < seed_count(n) {
        seed_count(n)
    } else {
        n
    }
}

/// The vertices of the max-area triangulation of `n` points.
pub open spec fn max_area_points(n: nat) -> Seq<CirclePoint> {
    Seq::new(max_area_vertex_count(n), |j: int| max_area_point(seed_count(n), j))
}

/// The `t`-th max-area triangle: first the fan of the seed polygon around vertex 0, then
/// for each split arc the triangle of its ends and the vertex that splits it.
pub open spec fn max_area_triangle(k: nat, t: int) -> (int, int, int) {
    if t < k - 2 {
        (0, t + 1, t + 2)
    } else {
        let m = t - (k - 2);
        let a = max_area_arc(k, m as nat);
        (a.0, k + m, a.1)
    }
}

/// The number of max-area triangles.
pub open spec fn max_area_triangle_count(n: nat) -> nat {
    (max_area_vertex_count(n) - 2) as nat
}

/// The max-area index list.
pub open spec fn max_area_corners(n: nat) -> Seq<u32> {
    flatten_triangles(max_area_triangle_count(n), |t: int| max_area_triangle(seed_count(n), t))
}

// ---------------------------------------------------------------------------------------
// Generation
// ---------------------------------------------------------------------------------------

/// What `generate_circle` asks of the number of points for a triangulation type.
pub open spec fn generate_circle_requires(t: TriangulationType, num_points: usize) -> bool {
    match t {
        TriangulationType::Fan => 2 <= num_points,
        TriangulationType::Strip => 2 <= num_points <= u32::MAX,
        TriangulationType::MaxArea => true,
    }
}

/// The vertices and the index list of the triangulation of type `t` with `n` points.
pub open spec fn spec_generate_circle(t: TriangulationType, n: nat) -> (Seq<CirclePoint>, Seq<u32>) {
    match t {
        TriangulationType::Fan => (fan_points(n), fan_corners(n).reverse()),
        TriangulationType::Strip => (rim_points(n), strip_corners(n)),
        TriangulationType::MaxArea => (max_area_points(n), max_area_corners(n)),
    }
}

/// Triangulates a disc of `num_points` points in the way `triangulation_type` names.
pub fn generate_circle(triangulation_type: &TriangulationType, num_points: usize) -> (res: (
    Vec<CirclePoint>,
    Vec<u32>,
))
    requires
        generate_circle_requires(*triangulation_type, num_points),
    ensures
        (res.0@, res.1@) == spec_generate_circle(*triangulation_type, num_points as nat),
{
    let triangulation = match triangulation_type {
        TriangulationType::Fan => generate_circle_type_one(num_points),
        TriangulationType::Strip => generate_circle_type_two(num_points),
        TriangulationType::MaxArea => generate_circle_type_three(num_points),
    };
    triangulation
}

/// The same list, back to front.
fn reversed(v: &Vec<u32>) -> (res: Vec<u32>)
    ensures
        res@ == v@.reverse(),
{
    let mut res: Vec<u32> = Vec::new();
    let mut i: usize = v.len();
    while i > 0
        invariant
            i <= v.len(),
            res@.len() == v.len() - i,
            forall|j: int| 0 <= j < res@.len() ==> res@[j] == v@[v.len() - 1 - j],
        decreases i,
    {
        i = i - 1;
        res.push(v[i]);
    }
    assert(res@ =~= v@.reverse());
    res
}

/// The fan triangulation: the centre joined to every edge between neighbouring rim points.
/// The index list comes back to front.
pub fn generate_circle_type_one(num_points: usize) -> (res: (Vec<CirclePoint>, Vec<u32>))
    requires
        2 <= num_points,
    ensures
        res.0@ == fan_points(num_points as nat),
        res.1@ == fan_corners(num_points as nat).reverse(),
{
    let n = num_points;
    let mut vertices: Vec<CirclePoint> = Vec::new();
    vertices.push(CirclePoint::Center);
    let mut j: usize = 0;
    while j < n - 1
        invariant
            n >= 2,
            j <= n - 1,
            vertices@.len() == j + 1,
            forall|x: int| 0 <= x < vertices@.len() ==> vertices@[x] == #[trigger] fan_points(n as nat)[x],
        decreases n - 1 - j,
    {
        vertices.push(CirclePoint::Rim { index: j, count: n - 1 });
        j = j + 1;
    }
    assert(vertices@ =~= fan_points(n as nat));

    let ghost target = fan_corners(n as nat);
    let mut indices: Vec<u32> = Vec::new();
    let mut i: usize = 0;
    while i < n - 2
        invariant
            n >= 2,
            i <= n - 2,
            target == fan_corners(n as nat),
            indices@.len() == 3 * i,
            forall|x: int| 0 <= x < indices@.len() ==> indices@[x] == #[trigger] target[x],
        decreases n - 2 - i,
    {
        indices.push(0);
        indices.push((i + 1) as u32);
        indices.push((i + 2) as u32);
        proof {
            assert forall|x: int| 0 <= x < indices@.len() implies indices@[x] == #[trigger] target[x] by {
                if x >= 3 * i {
                    assert(x / 3 == i);
                }
            }
        }
        i = i + 1;
    }
    indices.push(0);
    indices.push((n - 1) as u32);
    indices.push(1);
    proof {
        assert forall|x: int| 0 <= x < indices@.len() implies indices@[x] == #[trigger] target[x] by {
            if x >= 3 * i {
                assert(x / 3 == n - 2);
            }
        }
        assert(indices@ =~= target);
    }
    let indices = reversed(&indices);
    (vertices, indices)
}

/// The strip triangulation: triangles zig-zagging between the two halves of the rim.
pub fn generate_circle_type_two(num_points: usize) -> (res: (Vec<CirclePoint>, Vec<u32>))
    requires
        2 <= num_points <= u32::MAX,
    ensures
        res.0@ == rim_points(num_points as nat),
        res.1@ == strip_corners(num_points as nat),
{
    let n = num_points;
    let mut vertices: Vec<CirclePoint> = Vec::new();
    let mut j: usize = 0;
    while j < n
        invariant
            j <= n,
            vertices@.len() == j,
            forall|x: int| 0 <= x < vertices@.len() ==> vertices@[x] == #[trigger] rim_points(n as nat)[x],
        decreases n - j,
    {
        vertices.push(CirclePoint::Rim { index: j, count: n });
        j = j + 1;
    }
    assert(vertices@ =~= rim_points(n as nat));

    let ghost target = strip_corners(n as nat);
    let n32 = n as u32;
    let mut indices: Vec<u32> = Vec::new();
    indices.push(0);
    indices.push(n32 - 1);
    indices.push(1);

    let half = n / 2;
    let upper = (half + (n % 2) - 1) as u32;
    let mut i: u32 = 1;
    assert(upper == strip_loop_end(n as nat));
    proof {
        assert forall|x: int| 0 <= x < indices@.len() implies indices@[x] == #[trigger] target[x] by {
            assert(x / 3 == 0);
        }
    }
    while i < upper
        invariant
            2 <= n <= u32::MAX,
            n32 == n,
            upper == strip_loop_end(n as nat),
            1 <= i,
            i <= upper || upper < 1,
            upper < 1 ==> i == 1,
            target == strip_corners(n as nat),
            indices@.len() == 3 + 6 * (i - 1),
            forall|x: int| 0 <= x < indices@.len() ==> indices@[x] == #[trigger] target[x],
        decreases upper - i,
    {
        indices.push(i);
        indices.push(n32 - i);
        indices.push(n32 - i - 1);
        indices.push(i);
        indices.push(n32 - i - 1);
        indices.push(i + 1);
        proof {
            assert forall|x: int| 0 <= x < indices@.len() implies indices@[x] == #[trigger] target[x] by {
                if x >= 3 + 6 * (i - 1) {
                    let t = x / 3;
                    assert(t == 1 + 2 * (i - 1) || t == 2 + 2 * (i - 1));
                    assert((t - 1) / 2 == i - 1);
                }
            }
        }
        i = i + 1;
    }
    indices.push(n32 / 2);
    indices.push(n32 / 2 - 1);
    indices.push(n32 / 2 + 1);
    proof {
        if upper >= 1 {
            assert(i == upper);
        } else {
            assert(i == 1);
        }
        assert(indices@.len() == 3 * strip_triangle_count(n as nat));
        assert forall|x: int| 0 <= x < indices@.len() implies indices@[x] == #[trigger] target[x] by {
            if x >= indices@.len() - 3 {
                assert(x / 3 == strip_triangle_count(n as nat) - 1);
            }
        }
        assert(indices@ =~= target);
    }
    (vertices, indices)
}

/// The max-area triangulation: a seed polygon of 3, 4 or 6 rim points, fanned from its
/// first point; then, until there are `num_points` vertices, the oldest unsplit edge is
/// split by the rim point midway along its arc, which adds one triangle.
pub fn generate_circle_type_three(num_points: usize) -> (res: (Vec<CirclePoint>, Vec<u32>))
    ensures
        res.0@ == max_area_points(num_points as nat),
        res.1@ == max_area_corners(num_points as nat),
{
    let n = num_points;
    let k: usize = if n % 3 == 0 {
        3
    } else if n % 3 == 1 {
        4
    } else {
        6
    };
    let step: u32 = if k == 3 {
        120
    } else if k == 4 {
        90
    } else {
        60
    };
    let ghost kk = k as nat;
    let ghost points = max_area_points(n as nat);
    let ghost target = max_area_corners(n as nat);
    assert(kk == seed_count(n as nat));
    assert(step == 360int / (k as int));

    let mut vertices: Vec<CirclePoint> = Vec::new();
    let mut indices: Vec<u32> = Vec::new();
    let mut edge_queue: VecDeque<(usize, usize)> = VecDeque::new();

    vertices.push(CirclePoint::Bearing { degrees: 0 });
    let mut i: usize = 1;
    while i < k
        invariant
            k == kk,
            kk == seed_count(n as nat),
            step == 360int / (k as int),
            step <= 120,
            k <= 6,
            1 <= i <= k,
            vertices@.len() == i,
            forall|x: int| 0 <= x < i ==> vertices@[x] == #[trigger] max_area_point(kk, x),
            indices@.len() == 3 * (if i < k { i - 1 } else { k - 2 }),
            forall|x: int| 0 <= x < indices@.len() ==> indices@[x] == #[trigger] target[x],
            target == max_area_corners(n as nat),
            edge_queue@.len() == i - 1,
            forall|x: int| 0 <= x < i - 1 ==> (#[trigger] edge_queue@[x]).0 == max_area_arc(kk, x as nat).0 && edge_queue@[x].1 == max_area_arc(kk, x as nat).1,
        decreases k - i,
    {
        proof {
            vstd::arithmetic::mul::lemma_mul_upper_bound(step as int, 120, i as int, 6);
        }
        vertices.push(CirclePoint::Bearing { degrees: step * (i as u32) });
        if i + 1 < k {
            indices.push(0);
            indices.push(i as u32);
            indices.push((i + 1) as u32);
        }
        edge_queue.push_back((i - 1, i));
        proof {
            assert forall|x: int| 0 <= x < indices@.len() implies indices@[x] == #[trigger] target[x] by {
                if x >= 3 * (i - 1) {
                    assert(x / 3 == i - 1);
                }
            }
            assert(vertices@[i as int] == max_area_point(kk, i as int));
            vstd::arithmetic::div_mod::lemma_small_mod(i as nat, kk);
            assert(max_area_arc(kk, (i - 1) as nat) == ((i - 1) as int, i as int));
        }
        i = i + 1;
    }
    edge_queue.push_back((k - 1, 0));
    proof {
        vstd::arithmetic::div_mod::lemma_mod_self_0(kk as int);
        assert(max_area_arc(kk, (k - 1) as nat) == ((k - 1) as int, 0int));
    }

    while vertices.len() < n
        invariant
            k == kk,
            kk == seed_count(n as nat),
            3 <= kk <= 6,
            points == max_area_points(n as nat),
            target == max_area_corners(n as nat),
            k <= vertices@.len() <= max_area_vertex_count(n as nat),
            forall|x: int| 0 <= x < vertices@.len() ==> vertices@[x] == #[trigger] points[x],
            indices@.len() == 3 * (vertices@.len() - 2),
            forall|x: int| 0 <= x < indices@.len() ==> indices@[x] == #[trigger] target[x],
            edge_queue@.len() == vertices@.len(),
            forall|x: int| 0 <= x < edge_queue@.len() ==> (#[trigger] edge_queue@[x]).0 == max_area_arc(kk, (vertices@.len() - kk + x) as nat).0 && edge_queue@[x].1 == max_area_arc(kk, (vertices@.len() - kk + x) as nat).1,
        decreases n - vertices@.len(),
    {
        let ghost m = vertices@.len() - kk;
        let (p1, p2) = edge_queue.pop_front().unwrap();
        let mid_index = vertices.len();
        vertices.push(CirclePoint::ArcMidpoint { first: p1, second: p2 });
        indices.push(p1 as u32);
        indices.push(mid_index as u32);
        indices.push(p2 as u32);
        edge_queue.push_back((p1, mid_index));
        edge_queue.push_back((mid_index, p2));
        proof {
            let a = max_area_arc(kk, m as nat);
            assert(p1 == a.0 && p2 == a.1);
            assert(vertices@[mid_index as int] == points[mid_index as int]);
            assert forall|x: int| 0 <= x < indices@.len() implies indices@[x] == #[trigger] target[x] by {
                if x >= 3 * (mid_index - 2) {
                    assert(x / 3 == mid_index - 2);
                }
            }
            let j1 = (kk + 2 * m) as nat;
            let j2 = (kk + 2 * m + 1) as nat;
            assert((j1 - kk) / 2 == m && (j1 - kk) % 2 == 0);
            assert((j2 - kk) / 2 == m && (j2 - kk) % 2 == 1);
            assert(max_area_arc(kk, j1) == (a.0, kk + m));
            assert(max_area_arc(kk, j2) == (kk + m, a.1));
        }
    }
    proof {
        assert(vertices@ =~= points);
        assert(indices@ =~= target);
    }
    (vertices, indices)
}


// ---------------------------------------------------------------------------------------
// Laws
// ---------------------------------------------------------------------------------------

/// The `s`-th triangle of an index list: its three corners.
pub open spec fn triangle_of(idx: Seq<u32>, s: int) -> (int, int, int) {
    (idx[3 * s] as int, idx[3 * s + 1] as int, idx[3 * s + 2] as int)
}

/// The index list is whole triangles, and every corner names one of `vertex_count` vertices.
pub open spec fn indices_in_range(idx: Seq<u32>, vertex_count: nat) -> bool {
    &&& idx.len() % 3 == 0
    &&& forall|j: int| 0 <= j < idx.len() ==> (#[trigger] idx[j] as int) < vertex_count
}

/// No triangle of the index list repeats a vertex.
pub open spec fn triangles_nondegenerate(idx: Seq<u32>) -> bool {
    forall|s: int|
        0 <= s < idx.len() / 3 ==> {
            let t = #[trigger] triangle_of(idx, s);
            t.0 != t.1 && t.1 != t.2 && t.0 != t.2
        }
}

/// An upper bound (exclusive) on the vertex indices that arc `j` joins.
pub open spec fn max_area_arc_bound(k: nat, j: nat) -> int {
    if j < k {
        k as int
    } else {
        k + (j - k) / 2 + 1
    }
}

proof fn lemma_max_area_arc_bounds(k: nat, j: nat)
    requires
        k >= 3,
    ensures
        0 <= max_area_arc(k, j).0 < max_area_arc_bound(k, j),
        0 <= max_area_arc(k, j).1 < max_area_arc_bound(k, j),
        max_area_arc(k, j).0 != max_area_arc(k, j).1,
        max_area_arc_bound(k, j) <= k + j,
    decreases j,
{
    if j < k {
        if j + 1 < k {
            vstd::arithmetic::div_mod::lemma_small_mod((j + 1) as nat, k);
        } else {
            vstd::arithmetic::div_mod::lemma_mod_self_0(k as int);
        }
    } else {
        let p = ((j - k) / 2) as nat;
        lemma_max_area_arc_bounds(k, p);
    }
}

pub(crate) proof fn lemma_flatten_triangle(count: nat, tri: spec_fn(int) -> (int, int, int), s: int)
    requires
        0 <= s < count,
    ensures
        flatten_triangles(count, tri).len() == 3 * count,
        triangle_of(flatten_triangles(count, tri), s) == (
            corner(tri(s), 0) as u32 as int,
            corner(tri(s), 1) as u32 as int,
            corner(tri(s), 2) as u32 as int,
        ),
{
    let f = flatten_triangles(count, tri);
    assert((3 * s) / 3 == s && (3 * s) % 3 == 0);
    assert((3 * s + 1) / 3 == s && (3 * s + 1) % 3 == 1);
    assert((3 * s + 2) / 3 == s && (3 * s + 2) % 3 == 2);
}

/// The vertices that a max-area midpoint is built from come before it, and differ.
pub proof fn lemma_midpoints_precede(n: nat)
    requires
        n <= usize::MAX,
    ensures
        forall|j: int|
            0 <= j < max_area_points(n).len() ==> match #[trigger] max_area_points(n)[j] {
                CirclePoint::ArcMidpoint { first, second } => first < j && second < j && first
                    != second,
                _ => true,
            },
{
    let k = seed_count(n);
    assert forall|j: int| 0 <= j < max_area_points(n).len() implies match #[trigger] max_area_points(n)[j] {
        CirclePoint::ArcMidpoint { first, second } => first < j && second < j && first != second,
        _ => true,
    } by {
        if j >= k {
            lemma_max_area_arc_bounds(k, (j - k) as nat);
            let a = max_area_arc(k, (j - k) as nat);
            assert(a.0 < j && a.1 < j);
        }
    }
}

/// Every triangulation's index list is whole triangles whose corners are vertices of the
/// same triangulation, and no triangle repeats a vertex.
pub proof fn lemma_triangulation_well_formed(t: TriangulationType, n: nat)
    requires
        3 <= n <= u32::MAX,
    ensures
        indices_in_range(spec_generate_circle(t, n).1, spec_generate_circle(t, n).0.len()),
        triangles_nondegenerate(spec_generate_circle(t, n).1),
{
    let (pts, idx) = spec_generate_circle(t, n);
    match t {
        TriangulationType::Fan => {
            let c = fan_corners(n);
            let tri = |s: int| fan_triangle(n, s);
            let count = (n - 1) as nat;
            assert(c.len() == 3 * count);
            assert(idx.len() == c.len());
            assert forall|j: int| 0 <= j < idx.len() implies (#[trigger] idx[j] as int) < pts.len() by {
                let jj = c.len() - 1 - j;
                assert(idx[j] == c[jj]);
                let s = jj / 3;
                lemma_flatten_triangle(count, tri, s);
                assert(jj == 3 * s || jj == 3 * s + 1 || jj == 3 * s + 2);
            }
            assert forall|s: int| 0 <= s < idx.len() / 3 implies {
                let tt = #[trigger] triangle_of(idx, s);
                tt.0 != tt.1 && tt.1 != tt.2 && tt.0 != tt.2
            } by {
                let s2 = count - 1 - s;
                lemma_flatten_triangle(count, tri, s2);
                assert(idx[3 * s] == c[3 * s2 + 2]);
                assert(idx[3 * s + 1] == c[3 * s2 + 1]);
                assert(idx[3 * s + 2] == c[3 * s2]);
            }
        },
        TriangulationType::Strip => {
            let tri = |s: int| strip_triangle(n, s);
            let count = strip_triangle_count(n);
            assert forall|j: int| 0 <= j < idx.len() implies (#[trigger] idx[j] as int) < pts.len() by {
                let s = j / 3;
                lemma_flatten_triangle(count, tri, s);
                assert(j == 3 * s || j == 3 * s + 1 || j == 3 * s + 2);
            }
            assert forall|s: int| 0 <= s < idx.len() / 3 implies {
                let tt = #[trigger] triangle_of(idx, s);
                tt.0 != tt.1 && tt.1 != tt.2 && tt.0 != tt.2
            } by {
                lemma_flatten_triangle(count, tri, s);
            }
        },
        TriangulationType::MaxArea => {
            let k = seed_count(n);
            let tri = |s: int| max_area_triangle(k, s);
            let count = max_area_triangle_count(n);
            assert forall|j: int| 0 <= j < idx.len() implies (#[trigger] idx[j] as int) < pts.len() by {
                let s = j / 3;
                lemma_flatten_triangle(count, tri, s);
                assert(j == 3 * s || j == 3 * s + 1 || j == 3 * s + 2);
                if s >= k - 2 {
                    lemma_max_area_arc_bounds(k, (s - (k - 2)) as nat);
                }
            }
            assert forall|s: int| 0 <= s < idx.len() / 3 implies {
                let tt = #[trigger] triangle_of(idx, s);
                tt.0 != tt.1 && tt.1 != tt.2 && tt.0 != tt.2
            } by {
                lemma_flatten_triangle(count, tri, s);
                if s >= k - 2 {
                    lemma_max_area_arc_bounds(k, (s - (k - 2)) as nat);
                }
            }
        },
    }
}

/// The fan of `n` points: the centre, then the `n - 1` rim points in order. Its index list
/// runs back to front, each triangle as two neighbouring rim points and then the centre:
/// first the triangle that closes the fan, (1, n - 1, 0), then (n - s, n - 1 - s, 0) for
/// each later `s`. So triangle `n - 2 - t` is the `t`-th sector (0, t + 1, t + 2) read
/// backwards, and each edge between neighbouring rim points is a side of exactly one
/// triangle.
pub proof fn lemma_fan_shape(n: nat)
    requires
        3 <= n <= u32::MAX,
    ensures
        spec_generate_circle(TriangulationType::Fan, n).0.len() == n,
        spec_generate_circle(TriangulationType::Fan, n).0[0] == CirclePoint::Center,
        forall|j: int|
            1 <= j < n ==> #[trigger] spec_generate_circle(TriangulationType::Fan, n).0[j]
                == (CirclePoint::Rim { index: (j - 1) as usize, count: (n - 1) as usize }),
        spec_generate_circle(TriangulationType::Fan, n).1.len() == 3 * (n - 1),
        triangle_of(spec_generate_circle(TriangulationType::Fan, n).1, 0) == (1int, n - 1, 0int),
        forall|s: int|
            1 <= s < n - 1 ==> #[trigger] triangle_of(spec_generate_circle(TriangulationType::Fan, n).1, s)
                == (n - s, n - 1 - s, 0int),
{
    let idx = spec_generate_circle(TriangulationType::Fan, n).1;
    let c = fan_corners(n);
    let tri = |t: int| fan_triangle(n, t);
    let count = (n - 1) as nat;
    assert(c.len() == 3 * count);
    assert forall|s: int| 0 <= s < n - 1 implies #[trigger] triangle_of(idx, s) == (if s == 0 {
        (1int, n - 1, 0int)
    } else {
        (n - s, n - 1 - s, 0int)
    }) by {
        let s2 = count - 1 - s;
        lemma_flatten_triangle(count, tri, s2);
        assert(idx[3 * s] == c[3 * s2 + 2]);
        assert(idx[3 * s + 1] == c[3 * s2 + 1]);
        assert(idx[3 * s + 2] == c[3 * s2]);
    }
    assert(triangle_of(idx, 0) == (1int, n - 1, 0int));
}

/// The strip of `n` points: the `n` rim points in order, and triangles zig-zagging across
/// the disc. With `h` the half of `n` rounded up, there are `2h - 2` triangles: first
/// (0, n - 1, 1); then for each zig-zag step `i` from 1 to `h - 2` the pair
/// (i, n - i, n - i - 1) and (i, n - i - 1, i + 1); last (n/2, n/2 - 1, n/2 + 1).
pub proof fn lemma_strip_shape(n: nat)
    requires
        3 <= n <= u32::MAX,
    ensures
        spec_generate_circle(TriangulationType::Strip, n).0.len() == n,
        forall|j: int|
            0 <= j < n ==> #[trigger] spec_generate_circle(TriangulationType::Strip, n).0[j]
                == (CirclePoint::Rim { index: j as usize, count: n as usize }),
        spec_generate_circle(TriangulationType::Strip, n).1.len() == 3 * (2 * ((n + 1) / 2) - 2),
        triangle_of(spec_generate_circle(TriangulationType::Strip, n).1, 0) == (0int, n - 1, 1int),
        forall|s: int|
            1 <= s <= 2 * ((n + 1) / 2) - 4 ==> #[trigger] triangle_of(
                spec_generate_circle(TriangulationType::Strip, n).1,
                s,
            ) == (if s % 2 == 1 {
                ((s + 1) / 2, n - (s + 1) / 2, n - (s + 1) / 2 - 1)
            } else {
                (s / 2, n - s / 2 - 1, s / 2 + 1)
            }),
        triangle_of(spec_generate_circle(TriangulationType::Strip, n).1, 2 * ((n + 1) / 2) - 3) == (
            n as int / 2,
            n as int / 2 - 1,
            n as int / 2 + 1,
        ),
{
    let idx = spec_generate_circle(TriangulationType::Strip, n).1;
    let tri = |t: int| strip_triangle(n, t);
    let count = strip_triangle_count(n);
    assert(count == 2 * ((n + 1) / 2) - 2);
    assert forall|s: int| 0 <= s < count implies #[trigger] triangle_of(idx, s) == strip_triangle(n, s) by {
        lemma_flatten_triangle(count, tri, s);
    }
    assert forall|s: int| 1 <= s <= 2 * ((n + 1) / 2) - 4 implies #[trigger] triangle_of(idx, s) == (
    if s % 2 == 1 {
        ((s + 1) / 2, n - (s + 1) / 2, n - (s + 1) / 2 - 1)
    } else {
        (s / 2, n - s / 2 - 1, s / 2 + 1)
    }) by {
        assert(triangle_of(idx, s) == strip_triangle(n, s));
        if s % 2 == 1 {
            assert((s - 1) / 2 + 1 == (s + 1) / 2);
        } else {
            assert((s - 1) / 2 + 1 == s / 2);
        }
    }
    assert(triangle_of(idx, 0) == strip_triangle(n, 0));
    assert(triangle_of(idx, count - 1) == strip_triangle(n, count - 1));
}

/// The max-area triangulation of `n` points starts from a seed polygon whose size is 3, 4
/// or 6 according as `n % 3` is 0, 1 or 2: rim points at bearings 0, 120, 240; or
/// 0, 90, 180, 270; or 0, 60, 120, 180, 240, 300. It has `n` vertices, or the seed alone
/// when that is more. The seed is fanned from vertex 0 as (0, s + 1, s + 2); every later
/// triangle `t` has vertex `t + 2` as its middle corner, and that vertex is the midpoint of
/// the arc between the triangle's other two corners. The arcs are split breadth first: the
/// `k` vertices after the seed split the seed's edges in order, and each later vertex `v`
/// halves one of the two arcs that vertex `v / 2` left, the one from the first end to it
/// when `v` is even and the one from it to the second end when `v` is odd.
pub proof fn lemma_max_area_shape(n: nat)
    requires
        n <= u32::MAX,
    ensures
        ({
            let (pts, idx) = spec_generate_circle(TriangulationType::MaxArea, n);
            let k: int = if n % 3 == 0 {
                3
            } else if n % 3 == 1 {
                4
            } else {
                6
            };
            &&& pts.len() == (if n < k {
                k
            } else {
                n as int
            })
            &&& n % 3 == 0 ==> pts[0] == (CirclePoint::Bearing { degrees: 0 }) && pts[1]
                == (CirclePoint::Bearing { degrees: 120 }) && pts[2] == (CirclePoint::Bearing {
                degrees: 240,
            })
            &&& n % 3 == 1 ==> pts[0] == (CirclePoint::Bearing { degrees: 0 }) && pts[1]
                == (CirclePoint::Bearing { degrees: 90 }) && pts[2] == (CirclePoint::Bearing {
                degrees: 180,
            }) && pts[3] == (CirclePoint::Bearing { degrees: 270 })
            &&& n % 3 == 2 ==> pts[0] == (CirclePoint::Bearing { degrees: 0 }) && pts[1]
                == (CirclePoint::Bearing { degrees: 60 }) && pts[2] == (CirclePoint::Bearing {
                degrees: 120,
            }) && pts[3] == (CirclePoint::Bearing { degrees: 180 }) && pts[4]
                == (CirclePoint::Bearing { degrees: 240 }) && pts[5] == (CirclePoint::Bearing {
                degrees: 300,
            })
            &&& forall|v: int|
                k <= v < 2 * k && v < pts.len() ==> #[trigger] pts[v] == (CirclePoint::ArcMidpoint {
                    first: (v - k) as usize,
                    second: ((v - k + 1) % k) as usize,
                })
            &&& forall|v: int|
                2 * k <= v < pts.len() ==> #[trigger] pts[v] == (if v % 2 == 0 {
                    CirclePoint::ArcMidpoint { first: pts[v / 2]->first, second: (v / 2) as usize }
                } else {
                    CirclePoint::ArcMidpoint { first: (v / 2) as usize, second: pts[v / 2]->second }
                })
            &&& idx.len() == 3 * (pts.len() - 2)
            &&& forall|s: int| 0 <= s < k - 2 ==> #[trigger] triangle_of(idx, s) == (0int, s + 1, s + 2)
            &&& forall|t: int|
                k - 2 <= t < pts.len() - 2 ==> {
                    let tr = #[trigger] triangle_of(idx, t);
                    &&& tr.1 == t + 2
                    &&& pts[tr.1] == (CirclePoint::ArcMidpoint {
                        first: tr.0 as usize,
                        second: tr.2 as usize,
                    })
                }
        }),
{
    let (pts, idx) = spec_generate_circle(TriangulationType::MaxArea, n);
    let kk = seed_count(n);
    let k = kk as int;
    let tri = |t: int| max_area_triangle(kk, t);
    let count = max_area_triangle_count(n);
    assert(pts[0] == max_area_point(kk, 0));
    assert(pts[1] == max_area_point(kk, 1));
    assert(pts[2] == max_area_point(kk, 2));
    if kk >= 4 {
        assert(pts[3] == max_area_point(kk, 3));
    }
    if kk >= 6 {
        assert(pts[4] == max_area_point(kk, 4));
        assert(pts[5] == max_area_point(kk, 5));
    }
    assert forall|v: int| k <= v < 2 * k && v < pts.len() implies #[trigger] pts[v] == (
    CirclePoint::ArcMidpoint { first: (v - k) as usize, second: ((v - k + 1) % k) as usize }) by {
        assert(pts[v] == max_area_point(kk, v));
    }
    assert forall|v: int| 2 * k <= v < pts.len() implies #[trigger] pts[v] == (if v % 2 == 0 {
        CirclePoint::ArcMidpoint { first: pts[v / 2]->first, second: (v / 2) as usize }
    } else {
        CirclePoint::ArcMidpoint { first: (v / 2) as usize, second: pts[v / 2]->second }
    }) by {
        assert(pts[v] == max_area_point(kk, v));
        assert(pts[v / 2] == max_area_point(kk, v / 2));
        let j = (v - k) as nat;
        assert((j - kk) / 2 + k == v / 2);
        assert((j - kk) % 2 == v % 2);
        lemma_max_area_arc_bounds(kk, j);
    }
    assert forall|s: int| 0 <= s < k - 2 implies #[trigger] triangle_of(idx, s) == (0int, s + 1, s + 2) by {
        lemma_flatten_triangle(count, tri, s);
    }
    assert forall|t: int| k - 2 <= t < pts.len() - 2 implies {
        let tr = #[trigger] triangle_of(idx, t);
        &&& tr.1 == t + 2
        &&& pts[tr.1] == CirclePoint::ArcMidpoint { first: tr.0 as usize, second: tr.2 as usize }
    } by {
        lemma_flatten_triangle(count, tri, t);
        let m = t - (k - 2);
        lemma_max_area_arc_bounds(kk, m as nat);
        let a = max_area_arc(kk, m as nat);
        assert(pts[t + 2] == max_area_point(kk, t + 2));
        assert(t + 2 - k == m);
    }
}

/// From six points on, the three triangulation types give the same number of vertices:
/// the number of points asked for.
pub proof fn lemma_vertex_counts_agree(n: nat)
    requires
        6 <= n,
    ensures
        spec_generate_circle(TriangulationType::Fan, n).0.len() == n,
        spec_generate_circle(TriangulationType::Strip, n).0.len() == n,
        spec_generate_circle(TriangulationType::MaxArea, n).0.len() == n,
{
}

/// The number of triangles of each type: the fan has one per rim edge (`n - 1`); the strip
/// `n - 2` for an even number of points and `n - 1` for an odd one; the max-area
/// triangulation two fewer than its vertices.
pub proof fn lemma_triangle_counts(n: nat)
    requires
        3 <= n,
    ensures
        spec_generate_circle(TriangulationType::Fan, n).1.len() == 3 * (n - 1),
        n % 2 == 0 ==> spec_generate_circle(TriangulationType::Strip, n).1.len() == 3 * (n - 2),
        n % 2 == 1 ==> spec_generate_circle(TriangulationType::Strip, n).1.len() == 3 * (n - 1),
        spec_generate_circle(TriangulationType::MaxArea, n).1.len() == 3 * (
        spec_generate_circle(TriangulationType::MaxArea, n).0.len() - 2),
{
}

} // verus!
