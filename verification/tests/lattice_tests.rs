use crystal_kmc::lattice::{dims_fit_check, Grid, NONE};

#[test]
fn neighbor_table_of_a_small_open_lattice() {
    let grid = Grid::new(2, 2, 2, false, false, false);
    assert_eq!(grid.size, 8);
    assert_eq!(grid.size_zy, 4);
    // site 0 is (0, 0, 0): -x, -y, -z leave the lattice
    assert_eq!(grid.neibs[0], [NONE, 4, NONE, 2, NONE, 1]);
    // site 7 is (1, 1, 1): +x, +y, +z leave the lattice
    assert_eq!(grid.neibs[7], [3, NONE, 5, NONE, 6, NONE]);
}

#[test]
fn index_is_z_fastest_x_slowest() {
    let grid = Grid::new(3, 4, 5, false, false, false);
    assert_eq!(grid.size, 60);
    assert_eq!(grid.xyz_to_idx(0, 0, 0), 0);
    assert_eq!(grid.xyz_to_idx(0, 0, 1), 1);
    assert_eq!(grid.xyz_to_idx(0, 1, 0), 5);
    assert_eq!(grid.xyz_to_idx(1, 0, 0), 20);
    assert_eq!(grid.xyz_to_idx(2, 3, 4), 59);
}

#[test]
fn index_and_coordinates_are_inverse() {
    let grid = Grid::new(3, 4, 5, true, false, true);
    for idx in 0..grid.size {
        let (x, y, z) = grid.idx_to_xyz(idx);
        assert!(x < 3 && y < 4 && z < 5);
        assert_eq!(grid.xyz_to_idx(x, y, z), idx);
    }
    assert_eq!(grid.idx_to_xyz(27), (1, 1, 2));
}

#[test]
fn boundary_rule_of_one_axis() {
    assert_eq!(Grid::xyz_to_periodic_sub(3, 5, false), 3);
    assert_eq!(Grid::xyz_to_periodic_sub(-1, 5, false), NONE);
    assert_eq!(Grid::xyz_to_periodic_sub(5, 5, false), NONE);
    assert_eq!(Grid::xyz_to_periodic_sub(-1, 5, true), 4);
    assert_eq!(Grid::xyz_to_periodic_sub(5, 5, true), 0);
    assert_eq!(Grid::xyz_to_periodic_sub(-7, 5, true), 3);
    assert_eq!(Grid::xyz_to_periodic_sub(0, 1, true), 0);
    assert_eq!(Grid::xyz_to_periodic_sub(1, 1, true), 0);
}

#[test]
fn boundary_rule_of_three_axes() {
    let grid = Grid::new(3, 4, 5, true, false, true);
    assert_eq!(grid.xyz_to_periodic(-1, 2, 5), (2, 2, 0));
    assert_eq!(grid.xyz_to_periodic(1, -1, 1), (1, NONE, 1));
    assert_eq!(grid.xyz_to_periodic(3, 4, -1), (0, NONE, 4));
}

#[test]
fn periodic_axis_wraps_in_the_table() {
    let grid = Grid::new(3, 3, 3, true, false, false);
    // site 0 is (0, 0, 0); -x wraps to x = 2
    assert_eq!(grid.neibs[0], [18, 9, NONE, 3, NONE, 1]);
    // site 26 is (2, 2, 2); +x wraps to x = 0
    assert_eq!(grid.neibs[26], [17, 8, 23, NONE, 25, NONE]);
}

#[test]
fn neighbor_table_is_symmetric() {
    for &(px, py, pz) in &[(false, false, false), (true, false, true), (true, true, true)] {
        let grid = Grid::new(3, 2, 4, px, py, pz);
        for a in 0..grid.size {
            for dir in 0..6 {
                let b = grid.neibs[a][dir];
                if b != NONE {
                    assert!(b < grid.size);
                    let back = if dir % 2 == 0 { dir + 1 } else { dir - 1 };
                    assert_eq!(grid.neibs[b][back], a);
                }
            }
        }
    }
}

#[test]
fn fully_periodic_lattice_has_no_missing_neighbor() {
    let grid = Grid::new(4, 3, 2, true, true, true);
    for a in 0..grid.size {
        for dir in 0..6 {
            assert!(grid.neibs[a][dir] != NONE);
        }
    }
}

#[test]
fn periodic_axis_of_length_one_makes_a_site_its_own_neighbor() {
    let grid = Grid::new(1, 1, 2, true, true, false);
    assert_eq!(grid.neibs[0], [0, 0, 0, 0, NONE, 1]);
    assert_eq!(grid.neibs[1], [1, 1, 1, 1, 0, NONE]);
}

#[test]
fn lattice_with_a_dimension_of_zero_is_empty() {
    let grid = Grid::new(0, 3, 3, false, false, false);
    assert_eq!(grid.size, 0);
    assert_eq!(grid.neibs.len(), 0);
}

#[test]
fn precomp_neibs_fills_the_table_again() {
    let mut grid = Grid::new(2, 2, 2, false, false, false);
    grid.neibs[3] = [0; 6];
    grid.precomp_neibs();
    assert_eq!(grid.neibs[3], [NONE, 7, 1, NONE, 2, NONE]);
}

#[test]
fn dimensions_that_cannot_be_indexed_are_told_apart() {
    assert!(dims_fit_check(5, 5, 5));
    assert!(dims_fit_check(0, 7, 9));
    assert!(!dims_fit_check(usize::MAX, 1, 1));
    assert!(!dims_fit_check(1 << 31, 1 << 31, 1 << 31));
}

#[test]
fn neighbors_of_a_site() {
    let grid = Grid::new(3, 3, 3, false, false, false);
    assert_eq!(*grid.neighbors(13), [4, 22, 10, 16, 12, 14]);
    assert_eq!(*grid.neighbors(0), [NONE, 9, NONE, 3, NONE, 1]);
}
