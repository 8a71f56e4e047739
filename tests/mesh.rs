use ymir::mesh::{grid_indices, interior_vertex_indices};

#[test]
fn two_by_two_grid_has_one_quad_with_fixed_winding() {
    assert_eq!(grid_indices(2), vec![0, 3, 2, 3, 0, 1]);
}

#[test]
fn three_by_three_grid_indices() {
    let idx = grid_indices(3);
    assert_eq!(idx.len(), 24);
    assert_eq!(&idx[0..6], &[0, 4, 3, 4, 0, 1]);
    assert_eq!(&idx[6..12], &[1, 5, 4, 5, 1, 2]);
    assert_eq!(&idx[12..18], &[3, 7, 6, 7, 3, 4]);
    assert_eq!(&idx[18..24], &[4, 8, 7, 8, 4, 5]);
}

#[test]
fn default_grid_index_count_and_range() {
    let idx = grid_indices(33);
    assert_eq!(idx.len(), 32 * 32 * 6);
    assert!(idx.iter().all(|&i| i < 33 * 33));
    assert_eq!(*idx.iter().max().unwrap(), 33 * 33 - 1);
}

#[test]
fn single_vertex_grid_has_no_triangles() {
    assert!(grid_indices(1).is_empty());
}

#[test]
fn building_indices_twice_is_identical() {
    assert_eq!(grid_indices(17), grid_indices(17));
}

#[test]
fn interior_vertices_skip_last_row_and_column() {
    assert_eq!(interior_vertex_indices(3), vec![0, 1, 3, 4]);
    assert!(interior_vertex_indices(1).is_empty());
    let v = interior_vertex_indices(33);
    assert_eq!(v.len(), 32 * 32);
    assert!(v.iter().all(|&i| i % 33 != 32 && i < 33 * 32));
}
