use std::collections::VecDeque;
use web_max_area_data_collection::random_triangle::{
    choose_initial_triangle, push_valid_edge, RandomTriangulation,
};

fn run_to_completion(n: usize, s: (usize, usize, usize), pick: impl Fn(usize) -> usize) -> Vec<u32> {
    let mut t = RandomTriangulation::new(n, s.0, s.1, s.2);
    let mut steps = 0;
    while let Some(len) = t.front_arc_len() {
        assert!(len >= 2);
        t.split_front_arc(pick(len));
        steps += 1;
        assert!(steps <= n);
    }
    t.into_indices()
}

#[test]
fn push_valid_edge_queues_only_edges_with_points_between() {
    let mut q = VecDeque::new();
    push_valid_edge(2, 5, &mut q, 8);
    assert_eq!(q, VecDeque::from(vec![(2, 5)]));
    push_valid_edge(5, 6, &mut q, 8);
    assert_eq!(q.len(), 1);
    push_valid_edge(6, 2, &mut q, 8);
    assert_eq!(q, VecDeque::from(vec![(2, 5), (6, 2)]));
    push_valid_edge(7, 0, &mut q, 8);
    assert_eq!(q.len(), 2);
    push_valid_edge(7, 1, &mut q, 8);
    assert_eq!(q.back(), Some(&(7, 1)));
}

#[test]
fn new_triangulation_queues_the_open_sides() {
    let t = RandomTriangulation::new(8, 0, 3, 4);
    assert_eq!(t.front_arc_len(), Some(3));
    let indices = t.into_indices();
    assert_eq!(indices, vec![0, 3, 4]);
}

#[test]
fn splitting_the_front_edge() {
    let mut t = RandomTriangulation::new(8, 0, 3, 4);
    // queue: (0, 3), (4, 0); split (0, 3) at 0 + 1 + 1 = 2
    t.split_front_arc(1);
    assert_eq!(t.front_arc_len(), Some(4));
    // then (4, 0) spans 4 steps: split at 4 + 1 + 2 = 7
    t.split_front_arc(2);
    assert_eq!(t.front_arc_len(), Some(2));
    let indices = t.into_indices();
    assert_eq!(indices, vec![0, 3, 4, 0, 2, 3, 4, 7, 0]);
}

#[test]
fn finished_triangulation_has_n_minus_two_triangles() {
    for n in [3usize, 4, 5, 10, 64, 257] {
        let s = (0, n / 3, n - 1);
        let s = if s.1 == 0 { (0, 1, 2) } else { s };
        for pick in [0usize, 1, 2] {
            let indices = run_to_completion(n, s, |len| match pick {
                0 => 0,
                1 => len - 2,
                _ => (len - 2) / 2,
            });
            assert_eq!(indices.len(), 3 * (n - 2));
            for i in &indices {
                assert!((*i as usize) < n);
            }
            for tri in indices.chunks_exact(3) {
                assert!(tri[0] != tri[1] && tri[1] != tri[2] && tri[0] != tri[2]);
            }
        }
    }
}

#[test]
fn initial_triangle_is_ordered_and_random() {
    let mut rng = rand::rng();
    let mut seen_other = false;
    for _ in 0..200 {
        let (a, b, c) = choose_initial_triangle(&mut rng, 1000);
        assert!(a < b && b < c && c < 1000);
        if (a, b, c) != (0, 1, 2) {
            seen_other = true;
        }
    }
    assert!(seen_other);
    for _ in 0..20 {
        assert_eq!(choose_initial_triangle(&mut rng, 3), (0, 1, 2));
    }
}

fn steps(from: usize, to: usize, n: usize) -> usize {
    if to >= from { to - from } else { to + n - from }
}

fn check_triangulates_polygon(n: usize, indices: &[u32]) {
    let tris: Vec<[usize; 3]> = indices
        .chunks_exact(3)
        .map(|c| [c[0] as usize, c[1] as usize, c[2] as usize])
        .collect();
    // corners in order round the rim
    for t in &tris {
        let g = [steps(t[0], t[1], n), steps(t[1], t[2], n), steps(t[2], t[0], n)];
        assert!(g.iter().all(|&x| x >= 1));
        assert_eq!(g.iter().sum::<usize>(), n);
    }
    // every rim edge is a side of exactly one triangle
    for j in 0..n {
        let k = (j + 1) % n;
        let owners = tris.iter().filter(|t| t.contains(&j) && t.contains(&k)).count();
        assert_eq!(owners, 1, "rim edge {j}");
    }
    // no two triangles overlap: all corners of one lie on one gap of the other
    for (a, t) in tris.iter().enumerate() {
        for (b, u) in tris.iter().enumerate() {
            if a == b {
                continue;
            }
            let gaps = [(t[0], t[1]), (t[1], t[2]), (t[2], t[0])];
            assert!(gaps.iter().any(|&(s, e)| u.iter().all(|&x| steps(s, x, n) <= steps(s, e, n))));
        }
    }
}

#[test]
fn finished_triangulation_covers_the_polygon_once() {
    let mut rng = rand::rng();
    for n in [3usize, 4, 5, 7, 12, 40, 101] {
        for seed in 0..5usize {
            let s = choose_initial_triangle(&mut rng, n);
            let indices = run_to_completion(n, s, |len| (seed * 7 + len) % (len - 1));
            check_triangulates_polygon(n, &indices);
        }
    }
}
