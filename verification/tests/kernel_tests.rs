use crystal_kmc::flip::flip_site;
use crystal_kmc::frontier::Frontier;
use crystal_kmc::kernel::{
    activate_center, any_neighbor_is, compute_neighbor_sums, CRYSTAL, GAS,
};
use crystal_kmc::lattice::{Grid, NONE};
use crystal_kmc::rebuild::rebuild_front;

fn sorted(v: &[usize]) -> Vec<usize> {
    let mut s = v.to_vec();
    s.sort();
    s
}

fn interface_by_definition(state: &[u8], grid: &Grid) -> (Vec<usize>, Vec<usize>) {
    let mut gas_adj = Vec::new();
    let mut crystal_adj = Vec::new();
    for g in 0..grid.size {
        let has = |phase: u8| grid.neibs[g].iter().any(|&n| n != NONE && state[n] == phase);
        if state[g] == 0 && has(1) {
            gas_adj.push(g);
        }
        if state[g] == 1 && has(0) {
            crystal_adj.push(g);
        }
    }
    (gas_adj, crystal_adj)
}

#[test]
fn neighbor_sums_count_crystal_along_each_axis() {
    let grid = Grid::new(5, 5, 5, false, false, false);
    let mut state = vec![0u8; 125];
    // around the centre (2, 2, 2) = 62: both x neighbours, one y neighbour
    state[37] = 1;
    state[87] = 1;
    state[67] = 1;
    assert_eq!(compute_neighbor_sums(&state, &grid.neibs[62]), (2, 1, 0));
    assert_eq!(compute_neighbor_sums(&state, &grid.neibs[0]), (0, 0, 0));
    state[61] = 1;
    state[63] = 1;
    state[57] = 1;
    assert_eq!(compute_neighbor_sums(&state, &grid.neibs[62]), (2, 2, 2));
}

#[test]
fn neighbor_sums_pass_over_missing_neighbors() {
    let grid = Grid::new(2, 2, 2, false, false, false);
    let state = vec![1u8; 8];
    assert_eq!(compute_neighbor_sums(&state, &grid.neibs[0]), (1, 1, 1));
}

#[test]
fn any_neighbor_is_looks_for_a_phase() {
    let grid = Grid::new(3, 3, 3, false, false, false);
    let mut state = vec![0u8; 27];
    state[13] = 1;
    assert!(any_neighbor_is(&state, &grid.neibs[12], CRYSTAL));
    assert!(any_neighbor_is(&state, &grid.neibs[12], GAS));
    assert!(!any_neighbor_is(&state, &grid.neibs[0], CRYSTAL));
    assert!(!any_neighbor_is(&state, &grid.neibs[13], CRYSTAL));
}

#[test]
fn rebuild_front_around_one_crystal_site() {
    let grid = Grid::new(5, 5, 5, false, false, false);
    let mut state = vec![0u8; 125];
    state[62] = 1;
    let mut front = Frontier::new(125);
    let n = rebuild_front(&state, &grid.neibs, &mut front);
    assert_eq!(n, 1);
    assert_eq!(front.tpas, vec![37, 87, 57, 67, 61, 63]);
    assert_eq!(front.tpbs, vec![62]);
    assert_eq!(front.tpas_size, 6);
    assert_eq!(front.tpbs_size, 1);
}

#[test]
fn rebuild_front_of_an_empty_and_of_a_full_lattice() {
    let grid = Grid::new(3, 3, 3, false, false, false);
    let mut front = Frontier::new(27);
    assert_eq!(rebuild_front(&vec![0u8; 27], &grid.neibs, &mut front), 0);
    assert!(front.tpas.is_empty() && front.tpbs.is_empty());
    let mut front = Frontier::new(27);
    assert_eq!(rebuild_front(&vec![1u8; 27], &grid.neibs, &mut front), 27);
    assert!(front.tpas.is_empty() && front.tpbs.is_empty());
}

#[test]
fn rebuild_front_matches_the_definition_of_the_interface() {
    let grid = Grid::new(4, 3, 5, true, false, true);
    let mut state = vec![0u8; 60];
    for g in [0, 1, 7, 13, 14, 15, 29, 30, 31, 44, 59] {
        state[g] = 1;
    }
    let mut front = Frontier::new(60);
    let n = rebuild_front(&state, &grid.neibs, &mut front);
    assert_eq!(n, 11);
    let (gas_adj, crystal_adj) = interface_by_definition(&state, &grid);
    assert_eq!(sorted(&front.tpas), gas_adj);
    assert_eq!(sorted(&front.tpbs), crystal_adj);
}

#[test]
fn attachment_repairs_the_index() {
    let grid = Grid::new(5, 5, 5, false, false, false);
    let mut state = vec![0u8; 125];
    state[62] = 1;
    let mut front = Frontier::new(125);
    rebuild_front(&state, &grid.neibs, &mut front);
    let boundary = flip_site(&mut state, &mut front, &grid.neibs, 37, CRYSTAL);
    assert!(!boundary);
    assert_eq!(state[37], 1);
    assert_eq!(state.iter().filter(|&&s| s == 1).count(), 2);
    assert_eq!(front.tpas, vec![63, 87, 57, 67, 61, 12, 32, 42, 36, 38]);
    assert_eq!(front.tpbs, vec![62, 37]);
}

#[test]
fn detachment_repairs_the_index() {
    let grid = Grid::new(5, 5, 5, false, false, false);
    let mut state = vec![0u8; 125];
    state[62] = 1;
    state[37] = 1;
    let mut front = Frontier::new(125);
    rebuild_front(&state, &grid.neibs, &mut front);
    let boundary = flip_site(&mut state, &mut front, &grid.neibs, 37, GAS);
    assert!(!boundary);
    assert_eq!(state[37], 0);
    let (gas_adj, crystal_adj) = interface_by_definition(&state, &grid);
    assert_eq!(sorted(&front.tpas), gas_adj);
    assert_eq!(sorted(&front.tpbs), crystal_adj);
    assert_eq!(gas_adj, vec![37, 57, 61, 63, 67, 87]);
    assert_eq!(crystal_adj, vec![62]);
}

#[test]
fn detachment_of_the_last_crystal_site_empties_both_sets() {
    let grid = Grid::new(3, 3, 3, false, false, false);
    let mut state = vec![0u8; 27];
    state[13] = 1;
    let mut front = Frontier::new(27);
    rebuild_front(&state, &grid.neibs, &mut front);
    assert_eq!(front.tpas_size, 6);
    let boundary = flip_site(&mut state, &mut front, &grid.neibs, 13, GAS);
    assert!(!boundary);
    assert_eq!(front.tpas_size, 0);
    assert_eq!(front.tpbs_size, 0);
}

#[test]
fn event_at_an_open_face_reports_the_boundary() {
    let grid = Grid::new(3, 3, 3, false, false, false);
    let mut state = vec![0u8; 27];
    state[13] = 1;
    let mut front = Frontier::new(27);
    rebuild_front(&state, &grid.neibs, &mut front);
    // site 4 is (0, 1, 1), a neighbour of the centre on the face x = 0
    let boundary = flip_site(&mut state, &mut front, &grid.neibs, 4, CRYSTAL);
    assert!(boundary);
    assert_eq!(state[4], 1);
}

#[test]
fn repaired_index_agrees_with_a_fresh_scan() {
    let grid = Grid::new(4, 4, 4, true, true, true);
    let mut state = vec![0u8; 64];
    state[21] = 1;
    let mut front = Frontier::new(64);
    rebuild_front(&state, &grid.neibs, &mut front);
    // grow along a fixed path, then take some sites away again
    let mut turn = 0usize;
    for _ in 0..20 {
        let g = front.tpas[turn % front.tpas.len()];
        flip_site(&mut state, &mut front, &grid.neibs, g, CRYSTAL);
        turn += 3;
    }
    for _ in 0..7 {
        let g = front.tpbs[turn % front.tpbs.len()];
        flip_site(&mut state, &mut front, &grid.neibs, g, GAS);
        turn += 5;
    }
    let mut fresh = Frontier::new(64);
    let n = rebuild_front(&state, &grid.neibs, &mut fresh);
    assert_eq!(n, 1 + 20 - 7);
    assert_eq!(sorted(&front.tpas), sorted(&fresh.tpas));
    assert_eq!(sorted(&front.tpbs), sorted(&fresh.tpbs));
    let (gas_adj, crystal_adj) = interface_by_definition(&state, &grid);
    assert_eq!(sorted(&front.tpas), gas_adj);
    assert_eq!(sorted(&front.tpbs), crystal_adj);
}

#[test]
fn site_that_is_its_own_neighbor_is_repaired() {
    // one cell along x with a periodic x axis: every site is its own x neighbour
    let grid = Grid::new(1, 3, 3, true, true, true);
    let mut state = vec![0u8; 9];
    state[4] = 1;
    let mut front = Frontier::new(9);
    rebuild_front(&state, &grid.neibs, &mut front);
    for _ in 0..8 {
        let g = front.tpas[0];
        flip_site(&mut state, &mut front, &grid.neibs, g, CRYSTAL);
        let (gas_adj, crystal_adj) = interface_by_definition(&state, &grid);
        assert_eq!(sorted(&front.tpas), gas_adj);
        assert_eq!(sorted(&front.tpbs), crystal_adj);
    }
    assert!(front.tpas.is_empty() && front.tpbs.is_empty());
}

#[test]
fn centre_of_the_lattice_is_seeded() {
    let grid = Grid::new(5, 5, 5, false, false, false);
    let mut state = vec![0u8; 125];
    assert!(activate_center(&grid, &mut state));
    let crystal: Vec<usize> = (0..125).filter(|&g| state[g] == 1).collect();
    assert_eq!(crystal, vec![62]);
    let grid = Grid::new(4, 3, 2, false, false, false);
    let mut state = vec![0u8; 24];
    assert!(activate_center(&grid, &mut state));
    // (2, 1, 1) = 1 + 1 * 2 + 2 * 6
    assert_eq!((0..24).filter(|&g| state[g] == 1).collect::<Vec<_>>(), vec![15]);
    let grid = Grid::new(0, 3, 2, false, false, false);
    let mut state: Vec<u8> = vec![];
    assert!(!activate_center(&grid, &mut state));
}

#[test]
fn attachment_at_an_open_face_can_leave_a_member_without_gas_neighbor() {
    // two sites along z, the upper one crystal
    let grid = Grid::new(1, 1, 2, false, false, false);
    let mut state = vec![0u8, 1];
    let mut front = Frontier::new(2);
    rebuild_front(&state, &grid.neibs, &mut front);
    assert_eq!((front.tpas.clone(), front.tpbs.clone()), (vec![0], vec![1]));
    let boundary = flip_site(&mut state, &mut front, &grid.neibs, 0, CRYSTAL);
    assert!(boundary);
    assert_eq!(state, vec![1, 1]);
    // the new crystal site is counted as interface by its missing neighbours
    assert_eq!(front.tpas, Vec::<usize>::new());
    assert_eq!(front.tpbs, vec![0]);
}
