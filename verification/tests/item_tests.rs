use crystal_kmc::item::{
    axis_sign, Cursor, EventKind, Item, Proposal, Request, Status, StepCtx, Verdict,
};
use crystal_kmc::lattice::{Grid, NONE};
use crystal_kmc::mode::{Ballistic, Mode};
use rand::Rng;
use rand::SeedableRng;
use rand_chacha::ChaCha8Rng;

const K_BOLTZMANN: f64 = 1.380649e-23;

struct Physics {
    k_t: f64,
    ex2: f64,
    ey2: f64,
    ez2: f64,
    eisol: f64,
    dg: f64,
    p_b: f64,
    p_pow: f64,
}

fn physics(dg: f64, p_b: f64, p_pow: f64) -> Physics {
    let (ax, ay, az) = (1e-10, 1e-10, 1e-10);
    let (g100, g010, g001) = (0.1, 0.1, 0.1);
    let (ex2, ey2, ez2) = (2.0 * g100 * ay * az, 2.0 * g010 * ax * az, 2.0 * g001 * ax * ay);
    Physics { k_t: K_BOLTZMANN * 300.0, ex2, ey2, ez2, eisol: ex2 + ey2 + ez2, dg, p_b, p_pow }
}

fn surface_energy_change(p: &Proposal, ph: &Physics) -> f64 {
    let mut change = 0.0;
    for (sign, quantum) in [(p.signs.0, ph.ex2), (p.signs.1, ph.ey2), (p.signs.2, ph.ez2)] {
        match sign {
            1 => change += quantum,
            -1 => change -= quantum,
            _ => {}
        }
    }
    change
}

fn decide(p: &Proposal, mode: Mode, ph: &Physics, rng: &mut ChaCha8Rng) -> Verdict {
    let surf = surface_energy_change(p, ph);
    let accept = match p.kind {
        EventKind::Attach => {
            let d_e = surf - ph.dg;
            d_e < 0.0 || (-d_e / ph.k_t).exp() > rng.random::<f64>()
        }
        EventKind::Detach => {
            let d_e = surf + ph.dg;
            d_e < 0.0 || (-d_e / ph.k_t).exp() > rng.random::<f64>()
        }
        EventKind::Ballistic => match mode.ballistic() {
            Ballistic::Uniform => true,
            _ => {
                let base = (1.0 - surf / ph.eisol).max(0.0);
                ph.p_b * base.powf(ph.p_pow) > rng.random::<f64>()
            }
        },
    };
    if accept {
        Verdict::Accept
    } else {
        Verdict::Reject
    }
}

fn run_step(
    item: &mut Item,
    rng: &mut ChaCha8Rng,
    grid: &mut Grid,
    ctx: StepCtx,
    ph: &Physics,
) -> (bool, usize) {
    let mut accepted = 0;
    let mut request = item.begin_step(rng, grid, ctx);
    loop {
        match request {
            Request::Decide(p) => {
                let verdict = decide(&p, ctx.mode, ph, rng);
                if verdict == Verdict::Accept {
                    accepted += 1;
                }
                request = item.answer(rng, grid, verdict);
            }
            Request::Gate => {
                let open = ph.p_b > rng.random::<f64>();
                request = item.answer_gate(rng, grid, open);
            }
            Request::Done(alive) => return (alive, accepted),
        }
    }
}

fn seeded_item(grid: &Grid, crystal: &[usize]) -> Item {
    let mut state = vec![0u8; grid.size];
    for &g in crystal {
        state[g] = 1;
    }
    let mut item = Item::new(0, grid.size);
    item.load_state(&grid.neibs, &state);
    item
}

fn ctx(mode: Mode, step_id: u64, is_add: bool, is_rem: bool, is_write: bool) -> StepCtx {
    StepCtx { mode, step_id, is_add, is_rem, is_write }
}

fn crystal_count(item: &Item) -> u64 {
    item.state.iter().filter(|&&s| s == 1).count() as u64
}

fn check_interface(item: &Item, grid: &Grid) {
    let mut gas_adj = Vec::new();
    let mut crystal_adj = Vec::new();
    for g in 0..grid.size {
        assert!(item.state[g] == 0 || item.state[g] == 1);
        let has = |phase: u8| grid.neibs[g].iter().any(|&n| n != NONE && item.state[n] == phase);
        if item.state[g] == 0 && has(1) {
            gas_adj.push(g);
        }
        if item.state[g] == 1 && has(0) {
            crystal_adj.push(g);
        }
    }
    let mut a = item.front.tpas.clone();
    let mut b = item.front.tpbs.clone();
    a.sort();
    b.sort();
    assert_eq!(a, gas_adj);
    assert_eq!(b, crystal_adj);
    assert_eq!(item.front.tpas_size, item.front.tpas.len());
    assert_eq!(item.front.tpbs_size, item.front.tpbs.len());
    assert!(a.iter().all(|g| !b.contains(g)));
    assert_eq!(item.simlog.n_cryst.val, crystal_count(item));
}

#[test]
fn signs_of_the_surface_energy_change() {
    assert_eq!(axis_sign(0, true), 1);
    assert_eq!(axis_sign(1, true), 0);
    assert_eq!(axis_sign(2, true), -1);
    assert_eq!(axis_sign(0, false), -1);
    assert_eq!(axis_sign(1, false), 0);
    assert_eq!(axis_sign(2, false), 1);
}

#[test]
fn new_replica_is_gas_and_alive() {
    let item = Item::new(3, 27);
    assert_eq!(item.item_gid, 3);
    assert!(item.is_alive);
    assert_eq!(item.status, Status::Alive);
    assert_eq!(item.cursor, Cursor::Idle);
    assert_eq!(item.state, vec![0u8; 27]);
    assert_eq!(item.simlog.n_cryst.val, 0);
    assert!(item.is_front_empty());
}

#[test]
fn load_state_builds_the_index_and_counts_the_crystal() {
    let grid = Grid::new(5, 5, 5, false, false, false);
    let mut state = vec![0u8; 125];
    state[62] = 1;
    state[63] = 1;
    let mut item = Item::new(0, 125);
    assert_eq!(item.load_state(&grid.neibs, &state), 2);
    assert_eq!(item.state, state);
    assert_eq!(item.simlog.n_cryst.val, 2);
    assert!(!item.is_front_empty());
    check_interface(&item, &grid);
}

#[test]
fn proposal_names_a_member_with_its_counts_and_signs() {
    let grid = Grid::new(5, 5, 5, false, false, false);
    let mut item = seeded_item(&grid, &[62, 87]);
    // the first member of GasAdj is the -x neighbour of the centre
    let p = item.propose(&grid.neibs, EventKind::Attach, 0);
    assert_eq!(p.kind, EventKind::Attach);
    assert_eq!(p.idxg, 37);
    assert_eq!(p.sums, (1, 0, 0));
    assert_eq!(p.signs, (0, 1, 1));
    assert_eq!(item.cursor, Cursor::Attach(37));
    // the first member of CrystalAdj is the centre, with one crystal x neighbour
    let p = item.propose(&grid.neibs, EventKind::Detach, 0);
    assert_eq!(p.idxg, 62);
    assert_eq!(p.sums, (1, 0, 0));
    assert_eq!(p.signs, (0, -1, -1));
    assert_eq!(item.cursor, Cursor::Detach(62));
    let p = item.propose(&grid.neibs, EventKind::Ballistic, 1);
    assert_eq!(p.idxg, 87);
    assert_eq!(item.cursor, Cursor::Ballistic(87));
}

#[test]
fn surface_energy_change_of_a_lone_attachment() {
    let grid = Grid::new(5, 5, 5, false, false, false);
    let mut item = seeded_item(&grid, &[62]);
    let ph = physics(0.0, 0.0, 1.0);
    let p = item.propose(&grid.neibs, EventKind::Attach, 0);
    // one crystal neighbour along x, none along y and z: +Ey2 + Ez2
    assert_eq!(surface_energy_change(&p, &ph), ph.ey2 + ph.ez2);
    let p = item.propose(&grid.neibs, EventKind::Detach, 0);
    // a lone crystal site: detaching it removes its whole surface
    assert_eq!(surface_energy_change(&p, &ph), -ph.ex2 - ph.ey2 - ph.ez2);
}

#[test]
fn accepted_attachment_changes_one_site() {
    let grid_ro = Grid::new(5, 5, 5, false, false, false);
    let mut grid = Grid::new(5, 5, 5, false, false, false);
    let mut rng = ChaCha8Rng::seed_from_u64(1012);
    let mut item = seeded_item(&grid_ro, &[62]);
    let before = item.state.clone();
    let request = item.begin_step(&mut rng, &mut grid, ctx(Mode::M11, 1, true, false, false));
    let p = match request {
        Request::Decide(p) => p,
        _ => panic!("an attachment is due"),
    };
    assert_eq!(p.kind, EventKind::Attach);
    assert!([37, 87, 57, 67, 61, 63].contains(&p.idxg));
    let request = item.answer(&mut rng, &mut grid, Verdict::Accept);
    assert!(matches!(request, Request::Done(true)));
    let changed: Vec<usize> = (0..125).filter(|&g| item.state[g] != before[g]).collect();
    assert_eq!(changed, vec![p.idxg]);
    assert_eq!(item.state[p.idxg], 1);
    assert_eq!(item.simlog.n_cryst.val, 2);
    assert_eq!(item.simlog.mk_step.val, 1);
    assert_eq!(item.cursor, Cursor::Idle);
    check_interface(&item, &grid);
}

#[test]
fn rejected_event_changes_nothing_and_the_step_goes_on() {
    let grid_ro = Grid::new(5, 5, 5, false, false, false);
    let mut grid = Grid::new(5, 5, 5, false, false, false);
    let mut rng = ChaCha8Rng::seed_from_u64(7);
    let mut item = seeded_item(&grid_ro, &[62]);
    let before = item.state.clone();
    let tpas = item.front.tpas.clone();
    let tpbs = item.front.tpbs.clone();
    let request = item.begin_step(&mut rng, &mut grid, ctx(Mode::M11, 4, true, true, true));
    assert!(matches!(request, Request::Decide(Proposal { kind: EventKind::Attach, .. })));
    let request = item.answer(&mut rng, &mut grid, Verdict::Reject);
    assert!(matches!(request, Request::Decide(Proposal { kind: EventKind::Detach, idxg: 62, .. })));
    let request = item.answer(&mut rng, &mut grid, Verdict::Reject);
    assert!(matches!(request, Request::Done(true)));
    assert_eq!(item.state, before);
    assert_eq!(item.front.tpas, tpas);
    assert_eq!(item.front.tpbs, tpbs);
    assert_eq!(item.simlog.mk_step.val, 4);
    // a writing step measures the crystal and takes a history point
    assert_eq!(item.simlog.cryst_sx.val, 1);
    assert_eq!(item.simlog.cryst_sx.log, vec![1]);
    assert_eq!(item.simlog.n_cryst.log, vec![1]);
    assert_eq!(item.simlog.mk_step.log, vec![4]);
}

#[test]
fn refusal_for_negative_concentration_is_counted_and_nothing_else_changes() {
    let grid_ro = Grid::new(5, 5, 5, false, false, false);
    let mut grid = Grid::new(5, 5, 5, false, false, false);
    let mut rng = ChaCha8Rng::seed_from_u64(7);
    let mut item = seeded_item(&grid_ro, &[62]);
    let before = item.state.clone();
    let tpas = item.front.tpas.clone();
    let tpbs = item.front.tpbs.clone();
    let request = item.begin_step(&mut rng, &mut grid, ctx(Mode::M21, 9, true, true, true));
    assert!(matches!(request, Request::Decide(_)));
    let request = item.answer(&mut rng, &mut grid, Verdict::NegativeConcentration);
    assert!(matches!(request, Request::Done(true)));
    assert_eq!(item.simlog.conc_neg_count, 1);
    assert_eq!(item.state, before);
    assert_eq!(item.front.tpas, tpas);
    assert_eq!(item.front.tpbs, tpbs);
    assert_eq!(item.simlog.n_cryst.val, 1);
    assert_eq!(item.simlog.mk_step.val, 0);
    assert!(item.simlog.mk_step.log.is_empty());
    assert!(item.simlog.n_cryst.log.is_empty());
    assert!(item.is_alive);
    assert_eq!(item.cursor, Cursor::Idle);
}

#[test]
fn step_without_due_events_only_records_the_step() {
    let grid_ro = Grid::new(5, 5, 5, false, false, false);
    let mut grid = Grid::new(5, 5, 5, false, false, false);
    let mut rng = ChaCha8Rng::seed_from_u64(1012);
    let mut item = seeded_item(&grid_ro, &[62]);
    let before = item.state.clone();
    for step in 1..=100 {
        let request = item.begin_step(&mut rng, &mut grid, ctx(Mode::M11, step, false, false, false));
        assert!(matches!(request, Request::Done(true)));
    }
    assert_eq!(item.state, before);
    assert_eq!(item.status, Status::Alive);
    assert_eq!(item.simlog.mk_step.val, 100);
    check_interface(&item, &grid);
}

#[test]
fn uniform_ballistic_mode_asks_for_the_gate() {
    let grid_ro = Grid::new(5, 5, 5, false, false, false);
    let mut grid = Grid::new(5, 5, 5, false, false, false);
    let mut rng = ChaCha8Rng::seed_from_u64(1012);
    let mut item = seeded_item(&grid_ro, &[62, 63]);
    let request = item.begin_step(&mut rng, &mut grid, ctx(Mode::M12, 1, false, false, false));
    assert!(matches!(request, Request::Gate));
    assert_eq!(item.cursor, Cursor::Gate);
    let request = item.answer_gate(&mut rng, &mut grid, false);
    assert!(matches!(request, Request::Done(true)));
    assert_eq!(item.simlog.n_cryst.val, 2);
    let request = item.begin_step(&mut rng, &mut grid, ctx(Mode::M12, 2, false, false, false));
    assert!(matches!(request, Request::Gate));
    let request = item.answer_gate(&mut rng, &mut grid, true);
    let p = match request {
        Request::Decide(p) => p,
        _ => panic!("a ballistic event is proposed"),
    };
    assert_eq!(p.kind, EventKind::Ballistic);
    assert!(p.idxg == 62 || p.idxg == 63);
    let request = item.answer(&mut rng, &mut grid, Verdict::Accept);
    assert!(matches!(request, Request::Done(true)));
    assert_eq!(item.simlog.n_cryst.val, 1);
    check_interface(&item, &grid);
}

#[test]
fn biased_ballistic_mode_proposes_without_a_gate() {
    let grid_ro = Grid::new(5, 5, 5, false, false, false);
    let mut grid = Grid::new(5, 5, 5, false, false, false);
    let mut rng = ChaCha8Rng::seed_from_u64(1012);
    let mut item = seeded_item(&grid_ro, &[62, 63]);
    let request = item.begin_step(&mut rng, &mut grid, ctx(Mode::M23, 1, false, false, false));
    assert!(matches!(request, Request::Decide(Proposal { kind: EventKind::Ballistic, .. })));
    let request = item.answer(&mut rng, &mut grid, Verdict::Reject);
    assert!(matches!(request, Request::Done(true)));
    assert_eq!(item.simlog.n_cryst.val, 2);
}

#[test]
fn favourable_growth_accepts_every_attachment_until_the_boundary() {
    let grid_ro = Grid::new(5, 5, 5, false, false, false);
    let mut grid = Grid::new(5, 5, 5, false, false, false);
    let mut rng = ChaCha8Rng::seed_from_u64(1012);
    let mut item = seeded_item(&grid_ro, &[62]);
    let ph = physics(1e-20, 0.0, 1.0);
    let mut members = item.front.tpbs_size;
    let mut attached = 0;
    for step in 1..=10 {
        let (alive, accepted) =
            run_step(&mut item, &mut rng, &mut grid, ctx(Mode::M11, step, true, false, true), &ph);
        assert_eq!(accepted, 1);
        attached += 1;
        assert_eq!(item.simlog.n_cryst.val, 1 + attached);
        assert_eq!(crystal_count(&item), 1 + attached);
        if !alive {
            assert_eq!(item.status, Status::DeadBoundary);
            assert_eq!(item.simlog.mk_step.val, step);
            break;
        }
        assert!(item.front.tpbs_size >= members);
        members = item.front.tpbs_size;
        check_interface(&item, &grid);
    }
    assert!(attached == 10 || !item.is_alive);
}

#[test]
fn growth_in_an_open_lattice_ends_at_a_face() {
    let grid_ro = Grid::new(5, 5, 5, false, false, false);
    let mut grid = Grid::new(5, 5, 5, false, false, false);
    let mut rng = ChaCha8Rng::seed_from_u64(1012);
    let mut item = seeded_item(&grid_ro, &[62]);
    let ph = physics(1e-20, 0.0, 1.0);
    let mut step = 0;
    while item.is_alive {
        step += 1;
        assert!(step <= 125);
        run_step(&mut item, &mut rng, &mut grid, ctx(Mode::M11, step, true, false, false), &ph);
    }
    assert_eq!(item.status, Status::DeadBoundary);
    assert_eq!(item.simlog.mk_step.val, step);
    // the site that ended the run lies on a face
    let on_face = (0..125).any(|g| item.state[g] == 1 && grid.neibs[g].contains(&NONE));
    assert!(on_face);
}

#[test]
fn growth_in_a_periodic_lattice_never_meets_a_boundary() {
    let grid_ro = Grid::new(3, 3, 3, true, true, true);
    let mut grid = Grid::new(3, 3, 3, true, true, true);
    let mut rng = ChaCha8Rng::seed_from_u64(1012);
    let mut item = seeded_item(&grid_ro, &[13]);
    let ph = physics(1e-20, 0.0, 1.0);
    let mut step = 0;
    while item.is_alive {
        step += 1;
        assert!(step <= 27);
        run_step(&mut item, &mut rng, &mut grid, ctx(Mode::M11, step, true, false, false), &ph);
        if item.is_alive {
            check_interface(&item, &grid);
        }
    }
    assert_eq!(item.status, Status::DeadFrontier);
    assert_eq!(crystal_count(&item), 27);
    assert_eq!(step, 26);
}

#[test]
fn ballistic_dissolution_shrinks_the_crystal_until_the_front_is_gone() {
    let grid_ro = Grid::new(9, 9, 9, false, false, false);
    let mut grid = Grid::new(9, 9, 9, false, false, false);
    let mut ball = Vec::new();
    for g in 0..grid_ro.size {
        let (x, y, z) = grid_ro.idx_to_xyz(g);
        let d2 = (x as i64 - 4).pow(2) + (y as i64 - 4).pow(2) + (z as i64 - 4).pow(2);
        if d2 <= 9 {
            ball.push(g);
        }
    }
    let mut rng = ChaCha8Rng::seed_from_u64(1012);
    let mut item = seeded_item(&grid_ro, &ball);
    let ph = physics(0.0, 1.0, 1.0);
    let mut left = ball.len() as u64;
    let mut step = 0;
    while item.is_alive {
        step += 1;
        assert!(step <= ball.len() as u64);
        let (_, accepted) =
            run_step(&mut item, &mut rng, &mut grid, ctx(Mode::M12, step, false, false, false), &ph);
        assert_eq!(accepted, 1);
        assert_eq!(item.simlog.n_cryst.val, left - 1);
        left -= 1;
    }
    assert_eq!(item.status, Status::DeadFrontier);
    assert_eq!(left, 0);
    assert_eq!(crystal_count(&item), 0);
}

#[test]
fn equal_seeds_give_equal_runs() {
    let run = |seed: u64| {
        let grid_ro = Grid::new(6, 6, 6, true, true, true);
        let mut grid = Grid::new(6, 6, 6, true, true, true);
        let mut rng = ChaCha8Rng::seed_from_u64(seed);
        let mut item = seeded_item(&grid_ro, &[86, 87, 92, 93, 122, 123, 128, 129]);
        let ph = physics(1e-21, 0.3, 1.0);
        let mut trace = Vec::new();
        for step in 1..=300 {
            if !item.is_alive {
                break;
            }
            run_step(&mut item, &mut rng, &mut grid, ctx(Mode::M13, step, true, true, step % 10 == 0), &ph);
            trace.push(item.simlog.n_cryst.val);
        }
        (item.state.clone(), item.simlog.n_cryst.log.clone(), trace, item.front.tpas.clone())
    };
    assert_eq!(run(1012), run(1012));
    assert!(run(1012) != run(1013));
}

#[test]
fn invariants_hold_after_every_step_of_a_mixed_run() {
    let grid_ro = Grid::new(6, 5, 4, true, true, true);
    let mut grid = Grid::new(6, 5, 4, true, true, true);
    let mut rng = ChaCha8Rng::seed_from_u64(1012);
    let mut item = seeded_item(&grid_ro, &[50, 51, 54, 55, 70, 71, 74, 75]);
    let ph = physics(0.0, 0.2, 1.0);
    for step in 1..=400 {
        let before = crystal_count(&item);
        let (alive, accepted) =
            run_step(&mut item, &mut rng, &mut grid, ctx(Mode::M22, step, true, step % 2 == 0, false), &ph);
        let after = crystal_count(&item);
        assert!((after as i64 - before as i64).unsigned_abs() as usize <= accepted);
        assert_eq!((after as i64 - before as i64).rem_euclid(2), (accepted % 2) as i64);
        if !alive {
            assert_eq!(item.status, Status::DeadFrontier);
            break;
        }
        check_interface(&item, &grid);
    }
}

#[test]
fn crystal_is_measured_by_distinct_coordinates() {
    let grid_ro = Grid::new(5, 5, 5, false, false, false);
    let mut grid = Grid::new(5, 5, 5, false, false, false);
    // (1, 2, 2) = 37, (3, 2, 2) = 87 and (2, 2, 2) = 62: three x values, one y, one z
    let mut item = seeded_item(&grid_ro, &[37, 62, 87]);
    item.write_action(&mut grid);
    assert_eq!(item.simlog.cryst_sx.val, 3);
    assert_eq!(item.simlog.cryst_sy.val, 1);
    assert_eq!(item.simlog.cryst_sz.val, 1);
    assert_eq!(item.simlog.cryst_sx.log, vec![3]);
    // two sites apart along x count as two coordinates, not as a span of three
    let mut item = seeded_item(&grid_ro, &[37, 87]);
    item.write_action(&mut grid);
    assert_eq!(item.simlog.cryst_sx.val, 2);
    // no crystal: all sizes are zero
    let mut item = seeded_item(&grid_ro, &[]);
    item.write_action(&mut grid);
    assert_eq!(
        (item.simlog.cryst_sx.val, item.simlog.cryst_sy.val, item.simlog.cryst_sz.val),
        (0, 0, 0)
    );
}

#[test]
fn stalled_replicas_record_their_step() {
    let mut item = Item::new(0, 8);
    item.handle_stalled_front(17);
    assert!(!item.is_alive);
    assert_eq!(item.status, Status::DeadFrontier);
    assert_eq!(item.simlog.mk_step.val, 17);
    let mut item = Item::new(0, 8);
    item.handle_stalled_boundary(5);
    assert!(!item.is_alive);
    assert_eq!(item.status, Status::DeadBoundary);
    assert_eq!(item.simlog.mk_step.val, 5);
}

#[test]
fn steps_named_by_their_mode() {
    let grid_ro = Grid::new(5, 5, 5, false, false, false);
    let mut grid = Grid::new(5, 5, 5, false, false, false);
    let mut rng = ChaCha8Rng::seed_from_u64(1012);
    let mut item = seeded_item(&grid_ro, &[62, 63]);
    let request = item.mode_2_1_step(&mut rng, &mut grid, 1, (false, false, true));
    assert!(matches!(request, Request::Done(true)));
    assert_eq!(item.ctx.mode, Mode::M21);
    assert_eq!(item.simlog.mk_step.log, vec![1]);
    let request = item.mode_2_2_step(&mut rng, &mut grid, 2, (false, false, false));
    assert!(matches!(request, Request::Gate));
    let request = item.answer_gate(&mut rng, &mut grid, false);
    assert!(matches!(request, Request::Done(true)));
    let request = item.mode_2_3_step(&mut rng, &mut grid, 3, (false, true, false));
    assert!(matches!(request, Request::Decide(Proposal { kind: EventKind::Detach, .. })));
    let request = item.answer(&mut rng, &mut grid, Verdict::Reject);
    assert!(matches!(request, Request::Decide(Proposal { kind: EventKind::Ballistic, .. })));
    let request = item.answer(&mut rng, &mut grid, Verdict::Reject);
    assert!(matches!(request, Request::Done(true)));
    assert_eq!(item.simlog.mk_step.val, 3);
}

#[test]
fn step_needs_sites_to_choose_from() {
    let grid = Grid::new(3, 3, 3, false, false, false);
    let empty = seeded_item(&grid, &[]);
    assert!(empty.can_step(ctx(Mode::M11, 1, false, false, true)));
    assert!(!empty.can_step(ctx(Mode::M11, 1, true, false, false)));
    assert!(!empty.can_step(ctx(Mode::M11, 1, false, true, false)));
    assert!(!empty.can_step(ctx(Mode::M12, 1, false, false, false)));
    assert!(!empty.can_step(ctx(Mode::M23, 1, false, false, false)));
    let seeded = seeded_item(&grid, &[13]);
    assert!(seeded.can_step(ctx(Mode::M23, 1, true, true, false)));
}

#[test]
fn reservoir_of_one_replica_conserves_the_particles() {
    let grid_ro = Grid::new(7, 7, 7, true, true, true);
    let mut grid = Grid::new(7, 7, 7, true, true, true);
    let mut rng = ChaCha8Rng::seed_from_u64(1012);
    let mut item = seeded_item(&grid_ro, &[171]);
    let mut ph = physics(0.0, 0.0, 1.0);
    let (n_tot, conc_eq, conc0) = (1e6, 1e-6, 1e-6);
    let mut n_cryst = item.simlog.n_cryst.val as f64;
    let mut n_gas = conc0 * (n_tot - n_cryst);
    let mut conc = conc0;
    ph.dg = ph.k_t * (conc0 / conc_eq).ln();
    let total = n_gas + n_cryst;
    let mut refused = 0;
    for step in 1..=300 {
        let context = ctx(Mode::M21, step, true, true, false);
        if !item.can_step(context) {
            break;
        }
        let before = item.state.clone();
        let mut request = item.begin_step(&mut rng, &mut grid, context);
        let alive = loop {
            match request {
                Request::Decide(p) => {
                    let mut verdict = decide(&p, Mode::M21, &ph, &mut rng);
                    if verdict == Verdict::Accept {
                        let dn = if p.kind == EventKind::Attach { 1.0 } else { -1.0 };
                        let tentative = (n_gas - dn) / (n_tot - (n_cryst + dn));
                        if tentative < 0.0 {
                            verdict = Verdict::NegativeConcentration;
                            refused += 1;
                        } else {
                            n_cryst += dn;
                            n_gas -= dn;
                            conc = tentative;
                            ph.dg = ph.k_t * (conc / conc_eq).ln();
                        }
                    }
                    let state_before = item.state.clone();
                    request = item.answer(&mut rng, &mut grid, verdict);
                    if verdict == Verdict::NegativeConcentration {
                        assert_eq!(item.state, state_before);
                        assert!(matches!(request, Request::Done(true)));
                    }
                }
                Request::Gate => panic!("mode 2.1 has no ballistic event"),
                Request::Done(alive) => break alive,
            }
        };
        assert!(((n_gas + n_cryst) - total).abs() <= 1e-9 * total.abs());
        assert!(conc.is_finite() && conc >= 0.0);
        assert_eq!(item.simlog.conc_neg_count, refused);
        assert_eq!(item.simlog.n_cryst.val as f64, n_cryst);
        let changed = (0..before.len()).filter(|&g| before[g] != item.state[g]).count();
        assert!(changed <= 2);
        if !alive {
            break;
        }
    }
    assert!(refused > 0);
}

#[test]
fn attachment_and_detachment_in_turn_keep_the_crystal_fraction() {
    // without surface energy and driving force every proposal is accepted
    let grid_ro = Grid::new(20, 20, 20, true, true, true);
    let mut grid = Grid::new(20, 20, 20, true, true, true);
    let mut rng = ChaCha8Rng::seed_from_u64(1012);
    let mut state = vec![0u8; 8000];
    for site in state.iter_mut() {
        *site = if rng.random::<f64>() < 0.5 { 1 } else { 0 };
    }
    let mut item = Item::new(0, 8000);
    let initial = item.load_state(&grid_ro.neibs, &state) as f64 / 8000.0;
    assert!((initial - 0.5).abs() < 0.05);
    let mut ph = physics(0.0, 0.0, 1.0);
    ph.ex2 = 0.0;
    ph.ey2 = 0.0;
    ph.ez2 = 0.0;
    let steps = 1_000_000u64;
    let mut sum = 0.0;
    for step in 1..=steps {
        let (alive, accepted) =
            run_step(&mut item, &mut rng, &mut grid, ctx(Mode::M11, step, true, true, false), &ph);
        assert!(alive);
        assert_eq!(accepted, 2);
        let fraction = item.simlog.n_cryst.val as f64 / 8000.0;
        assert!((fraction - initial).abs() <= 0.01);
        sum += fraction;
    }
    assert!((sum / steps as f64 - initial).abs() <= 0.01);
    check_interface(&item, &grid);
}

#[test]
fn filling_a_cavity_takes_sites_out_of_the_crystal_side() {
    // a block of 5 x 5 x 5 crystal sites inside an open lattice, its middle left out
    let grid_ro = Grid::new(7, 7, 7, false, false, false);
    let mut grid = Grid::new(7, 7, 7, false, false, false);
    let middle = grid_ro.xyz_to_idx(3, 3, 3);
    let mut block = Vec::new();
    for g in 0..grid_ro.size {
        let (x, y, z) = grid_ro.idx_to_xyz(g);
        if [x, y, z].iter().all(|&c| (1..=5).contains(&c)) && g != middle {
            block.push(g);
        }
    }
    let mut item = seeded_item(&grid_ro, &block);
    let before = item.front.tpbs_size;
    let at = item.front.tpas.iter().position(|&g| g == middle).unwrap();
    let p = item.propose(&grid_ro.neibs, EventKind::Attach, at);
    assert_eq!(p.idxg, middle);
    assert_eq!(p.sums, (2, 2, 2));
    assert_eq!(p.signs, (-1, -1, -1));
    let boundary = item.apply_event(&grid_ro.neibs, EventKind::Attach, middle);
    assert!(!boundary);
    // the six neighbours of the middle have lost their last gas neighbour
    assert_eq!(item.front.tpbs_size, before - 6);
    assert!(!item.front.tpbs.contains(&middle));
    check_interface(&item, &grid);
    let _ = &mut grid;
}

#[test]
fn dissolution_of_an_inner_crystal_ends_with_its_last_site() {
    let grid_ro = Grid::new(5, 5, 5, false, false, false);
    let mut grid = Grid::new(5, 5, 5, false, false, false);
    let mut rng = ChaCha8Rng::seed_from_u64(3);
    // the centre and its six neighbours lie inside the lattice
    let mut item = seeded_item(&grid_ro, &[62, 37, 87, 57, 67, 61, 63]);
    let ph = physics(0.0, 1.0, 1.0);
    for step in 1..=7 {
        assert!(item.is_alive);
        let (alive, accepted) =
            run_step(&mut item, &mut rng, &mut grid, ctx(Mode::M12, step, false, false, false), &ph);
        assert_eq!(accepted, 1);
        assert_eq!(item.simlog.n_cryst.val, 7 - step);
        assert_eq!(alive, step < 7);
        assert!(item.status != Status::DeadBoundary);
    }
    assert_eq!(item.status, Status::DeadFrontier);
    assert_eq!(item.simlog.mk_step.val, 7);
}
