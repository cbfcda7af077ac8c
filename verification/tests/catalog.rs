use web_max_area_data_collection::catalog::{flip_triangle_winding, TriangulationCatalog};
use web_max_area_data_collection::vertex::TriangulationType;

fn sample() -> TriangulationCatalog<TriangulationType, u8> {
    TriangulationCatalog::new(vec![
        (TriangulationType::Fan, vec![1, 2, 3], vec![0, 1, 2]),
        (TriangulationType::Strip, vec![1, 2, 3, 4], vec![0, 1, 2, 2, 3, 0]),
        (TriangulationType::MaxArea, vec![9; 5], vec![0, 1, 2, 3]),
    ])
}

#[test]
fn flipping_reverses_every_whole_triangle() {
    let mut v = vec![0, 1, 2, 3, 4, 5, 6, 7];
    flip_triangle_winding(&mut v);
    assert_eq!(v, vec![2, 1, 0, 5, 4, 3, 6, 7]);
    flip_triangle_winding(&mut v);
    assert_eq!(v, vec![0, 1, 2, 3, 4, 5, 6, 7]);
    let mut empty: Vec<u32> = vec![];
    flip_triangle_winding(&mut empty);
    assert!(empty.is_empty());
}

#[test]
fn next_wraps_and_reports_it() {
    let mut c = sample();
    assert_eq!(c.get_triangulations_len(), 3);
    assert_eq!(c.current_index(), 0);
    assert!(!c.next_triangulation());
    assert_eq!(c.current_index(), 1);
    assert!(!c.next_triangulation());
    assert_eq!(c.current_index(), 2);
    assert!(c.next_triangulation());
    assert_eq!(c.current_index(), 0);
}

#[test]
fn prev_wraps_to_the_last() {
    let mut c = sample();
    c.prev_triangulation();
    assert_eq!(c.current_index(), 2);
    c.prev_triangulation();
    assert_eq!(c.current_index(), 1);
    assert!(!c.next_triangulation());
    c.prev_triangulation();
    assert_eq!(c.current_index(), 1);
}

#[test]
fn stepping_once_per_entry_returns_to_the_start() {
    let mut c = sample();
    c.set_triangulation(1);
    let mut wraps = 0;
    for _ in 0..c.get_triangulations_len() {
        if c.next_triangulation() {
            wraps += 1;
        }
    }
    assert_eq!(c.current_index(), 1);
    assert_eq!(wraps, 1);
}

#[test]
fn selected_triangulation_data() {
    let mut c = sample();
    c.set_triangulation(1);
    assert_eq!(c.get_num_vertices(), 4);
    assert_eq!(c.get_triangulation_type(), TriangulationType::Strip);
    assert_eq!(c.current_vertices(), &vec![1, 2, 3, 4]);
    assert_eq!(c.current_draw_indices(), vec![2, 1, 0, 0, 3, 2]);
    c.set_triangulation(2);
    assert_eq!(c.current_draw_indices(), vec![2, 1, 0, 3]);
    c.reset_to_default_triangulation();
    assert_eq!(c.current_index(), 0);
    assert_eq!(c.get_triangulation_type(), TriangulationType::Fan);
}

#[test]
fn single_entry_catalog() {
    let mut c = TriangulationCatalog::new(vec![(TriangulationType::Fan, vec![0u8], vec![])]);
    assert!(c.next_triangulation());
    c.prev_triangulation();
    assert_eq!(c.current_index(), 0);
}
