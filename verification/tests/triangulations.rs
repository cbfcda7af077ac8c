use web_max_area_data_collection::vertex::{
    generate_circle, generate_circle_type_one, generate_circle_type_three, generate_circle_type_two,
    CirclePoint, TriangulationType,
};

fn check_well_formed(points: &[CirclePoint], indices: &[u32]) {
    assert_eq!(indices.len() % 3, 0);
    for i in indices {
        assert!((*i as usize) < points.len());
    }
    for t in indices.chunks_exact(3) {
        assert!(t[0] != t[1] && t[1] != t[2] && t[0] != t[2]);
    }
}

#[test]
fn next_cycles_through_the_three_types() {
    let mut t = TriangulationType::Fan;
    t.next();
    assert_eq!(t, TriangulationType::Strip);
    t.next();
    assert_eq!(t, TriangulationType::MaxArea);
    t.next();
    assert_eq!(t, TriangulationType::Fan);
}

#[test]
fn fan_of_four_points() {
    let (points, indices) = generate_circle_type_one(4);
    assert_eq!(
        points,
        vec![
            CirclePoint::Center,
            CirclePoint::Rim { index: 0, count: 3 },
            CirclePoint::Rim { index: 1, count: 3 },
            CirclePoint::Rim { index: 2, count: 3 },
        ]
    );
    assert_eq!(indices, vec![1, 3, 0, 3, 2, 0, 2, 1, 0]);
}

#[test]
fn fan_of_two_points_is_one_degenerate_triangle() {
    let (points, indices) = generate_circle_type_one(2);
    assert_eq!(points, vec![CirclePoint::Center, CirclePoint::Rim { index: 0, count: 1 }]);
    assert_eq!(indices, vec![1, 1, 0]);
}

#[test]
fn strip_of_six_points() {
    let (points, indices) = generate_circle_type_two(6);
    assert_eq!(points.len(), 6);
    assert_eq!(points[5], CirclePoint::Rim { index: 5, count: 6 });
    assert_eq!(indices, vec![0, 5, 1, 1, 5, 4, 1, 4, 2, 3, 2, 4]);
}

#[test]
fn strip_of_five_points_repeats_its_last_triangle() {
    let (_, indices) = generate_circle_type_two(5);
    assert_eq!(indices, vec![0, 4, 1, 1, 4, 3, 1, 3, 2, 2, 1, 3]);
}

#[test]
fn strip_of_three_points() {
    let (_, indices) = generate_circle_type_two(3);
    assert_eq!(indices, vec![0, 2, 1, 1, 0, 2]);
}

#[test]
fn max_area_of_six_points() {
    let (points, indices) = generate_circle_type_three(6);
    assert_eq!(
        points,
        vec![
            CirclePoint::Bearing { degrees: 0 },
            CirclePoint::Bearing { degrees: 120 },
            CirclePoint::Bearing { degrees: 240 },
            CirclePoint::ArcMidpoint { first: 0, second: 1 },
            CirclePoint::ArcMidpoint { first: 1, second: 2 },
            CirclePoint::ArcMidpoint { first: 2, second: 0 },
        ]
    );
    assert_eq!(indices, vec![0, 1, 2, 0, 3, 1, 1, 4, 2, 2, 5, 0]);
}

#[test]
fn max_area_of_seven_points_starts_from_a_square() {
    let (points, indices) = generate_circle_type_three(7);
    assert_eq!(points[..4].to_vec(), vec![
        CirclePoint::Bearing { degrees: 0 },
        CirclePoint::Bearing { degrees: 90 },
        CirclePoint::Bearing { degrees: 180 },
        CirclePoint::Bearing { degrees: 270 },
    ]);
    assert_eq!(points[6], CirclePoint::ArcMidpoint { first: 2, second: 3 });
    assert_eq!(indices, vec![0, 1, 2, 0, 2, 3, 0, 4, 1, 1, 5, 2, 2, 6, 3]);
}

#[test]
fn max_area_second_round_splits_the_new_edges() {
    let (points, indices) = generate_circle_type_three(9);
    // seed 0, 1, 2; midpoints 3, 4, 5 of the seed edges; then 6 splits (0, 3), 7 splits (3, 1), 8 splits (1, 4)
    assert_eq!(points[6], CirclePoint::ArcMidpoint { first: 0, second: 3 });
    assert_eq!(points[7], CirclePoint::ArcMidpoint { first: 3, second: 1 });
    assert_eq!(points[8], CirclePoint::ArcMidpoint { first: 1, second: 4 });
    assert_eq!(indices[indices.len() - 3..].to_vec(), vec![1, 8, 4]);
}

#[test]
fn max_area_with_fewer_points_than_its_seed() {
    let (points, indices) = generate_circle_type_three(2);
    assert_eq!(points.len(), 6);
    assert_eq!(points[5], CirclePoint::Bearing { degrees: 300 });
    assert_eq!(indices, vec![0, 1, 2, 0, 2, 3, 0, 3, 4, 0, 4, 5]);
    let (points, _) = generate_circle_type_three(0);
    assert_eq!(points.len(), 3);
}

#[test]
fn generate_circle_dispatches_on_the_type() {
    assert_eq!(generate_circle(&TriangulationType::Fan, 5), generate_circle_type_one(5));
    assert_eq!(generate_circle(&TriangulationType::Strip, 5), generate_circle_type_two(5));
    assert_eq!(generate_circle(&TriangulationType::MaxArea, 5), generate_circle_type_three(5));
}

#[test]
fn all_types_have_the_asked_number_of_vertices() {
    for n in [6usize, 7, 8, 256, 1000, 1024] {
        assert_eq!(generate_circle_type_one(n).0.len(), n);
        assert_eq!(generate_circle_type_two(n).0.len(), n);
        assert_eq!(generate_circle_type_three(n).0.len(), n);
    }
}

#[test]
fn triangle_counts() {
    for n in [4usize, 6, 9, 256, 257] {
        assert_eq!(generate_circle_type_one(n).1.len(), 3 * (n - 1));
        let strip = generate_circle_type_two(n).1.len();
        if n % 2 == 0 {
            assert_eq!(strip, 3 * (n - 2));
        } else {
            assert_eq!(strip, 3 * (n - 1));
        }
        let (p, i) = generate_circle_type_three(n);
        assert_eq!(i.len(), 3 * (p.len() - 2));
    }
}

#[test]
fn all_triangulations_are_well_formed() {
    for n in 3usize..70 {
        for t in [TriangulationType::Fan, TriangulationType::Strip, TriangulationType::MaxArea] {
            let (p, i) = generate_circle(&t, n);
            check_well_formed(&p, &i);
        }
    }
    let (p, i) = generate_circle_type_three(4096);
    check_well_formed(&p, &i);
}

#[test]
fn max_area_midpoints_come_after_their_ends() {
    let (points, _) = generate_circle_type_three(500);
    for (j, p) in points.iter().enumerate() {
        if let CirclePoint::ArcMidpoint { first, second } = p {
            assert!(*first < j && *second < j && first != second);
        }
    }
}
