use geometry_engine::grid::{field_indices, surface_indices, MAX_CELLS};

#[test]
fn surface_of_one_cell_has_two_triangles() {
    assert_eq!(surface_indices(1), vec![0, 2, 1, 2, 3, 1]);
}

#[test]
fn field_of_one_cell_has_two_triangles() {
    assert_eq!(field_indices(1), vec![0, 2, 1, 1, 2, 3]);
}

#[test]
fn surface_of_two_cells_a_side() {
    assert_eq!(
        surface_indices(2),
        vec![0, 3, 1, 3, 4, 1, 1, 4, 2, 4, 5, 2, 3, 6, 4, 6, 7, 4, 4, 7, 5, 7, 8, 5]
    );
}

#[test]
fn field_of_two_cells_a_side() {
    assert_eq!(
        field_indices(2),
        vec![0, 3, 1, 1, 3, 4, 1, 4, 2, 2, 4, 5, 3, 6, 4, 4, 6, 7, 4, 7, 5, 5, 7, 8]
    );
}

#[test]
fn no_cell_gives_no_index() {
    assert!(surface_indices(0).is_empty());
    assert!(field_indices(0).is_empty());
}

#[test]
fn surface_indices_follow_the_rows() {
    for n in 1u32..12 {
        let mut expected = Vec::new();
        for row in 0..n {
            for col in 0..n {
                let first = row * (n + 1) + col;
                let second = first + n + 1;
                expected.extend_from_slice(&[first, second, first + 1, second, second + 1, first + 1]);
            }
        }
        assert_eq!(surface_indices(n), expected);
    }
}

#[test]
fn field_indices_follow_the_rows() {
    for n in 1u32..12 {
        let mut expected = Vec::new();
        for z in 0..n {
            for x in 0..n {
                let top_left = z * (n + 1) + x;
                let top_right = top_left + 1;
                let bottom_left = (z + 1) * (n + 1) + x;
                let bottom_right = bottom_left + 1;
                expected.extend_from_slice(&[
                    top_left,
                    bottom_left,
                    top_right,
                    top_right,
                    bottom_left,
                    bottom_right,
                ]);
            }
        }
        assert_eq!(field_indices(n), expected);
    }
}

#[test]
fn indices_name_vertices_of_the_lattice() {
    for n in 1u32..20 {
        let vertices = (n + 1) * (n + 1);
        let surface = surface_indices(n);
        let field = field_indices(n);
        assert_eq!(surface.len() as u32, 6 * n * n);
        assert_eq!(field.len() as u32, 6 * n * n);
        assert!(surface.iter().all(|&index| index < vertices));
        assert!(field.iter().all(|&index| index < vertices));
        assert_eq!(*surface.iter().max().unwrap(), vertices - 1);
        assert_eq!(*field.iter().max().unwrap(), vertices - 1);
    }
}

#[test]
fn finest_lattice_fits_in_thirty_two_bits() {
    assert_eq!(MAX_CELLS, 65534);
    assert_eq!((MAX_CELLS as u64 + 1) * (MAX_CELLS as u64 + 1), 4294836225);
    assert!((MAX_CELLS as u64 + 1) * (MAX_CELLS as u64 + 1) - 1 <= u32::MAX as u64);
}
