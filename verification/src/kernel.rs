//! The phase array and its interface: the two phases, the crystal
//! neighbours of a site, and what it means that an index holds the interface
//! of a phase array.

use vstd::prelude::*;
use crate::frontier::{Frontier, FrontierModel, TAG_CRYSTAL_ADJ, TAG_GAS_ADJ};
use crate::lattice::{opposite, NONE};

verus! {

/// Phase of a gas site.
pub const GAS: u8 = 0;

/// Phase of a crystal site.
pub const CRYSTAL: u8 = 1;

/// The other of the two phases.
pub open spec fn other(phase: u8) -> u8 {
    if phase == GAS {
        CRYSTAL
    } else {
        GAS
    }
}

/// The tag of the set that sites of `phase` join at the interface.
pub open spec fn adj_tag(phase: u8) -> u8 {
    if phase == GAS {
        TAG_GAS_ADJ
    } else {
        TAG_CRYSTAL_ADJ
    }
}

/// Every site is gas or crystal.
pub open spec fn phases_ok(state: Seq<u8>) -> bool {
    forall|g: int| 0 <= g < state.len() ==> #[trigger] state[g] == GAS || state[g] == CRYSTAL
}

/// Every entry of a row of neighbours is `NONE` or a site below `n`.
pub open spec fn row_in_range(row: Seq<usize>, n: int) -> bool {
    row.len() == 6 && forall|d: int| 0 <= d < 6 ==> #[trigger] row[d] == NONE || row[d] < n
}

/// Some in-domain neighbour in `row` has phase `phase`.
pub open spec fn row_has(state: Seq<u8>, row: Seq<usize>, phase: u8) -> bool {
    exists|d: int| 0 <= d < 6 && #[trigger] row[d] != NONE && state[row[d] as int] == phase
}

/// Some slot of `row` is `NONE`.
pub open spec fn row_open(row: Seq<usize>) -> bool {
    exists|d: int| 0 <= d < 6 && #[trigger] row[d] == NONE
}

/// One when slot `d` of `row` holds a crystal site, zero otherwise.
pub open spec fn slot_crystal(state: Seq<u8>, row: Seq<usize>, d: int) -> int {
    if row[d] != NONE && state[row[d] as int] == CRYSTAL {
        1
    } else {
        0
    }
}

/// The number of crystal neighbours along one axis (0 for x, 1 for y, 2 for
/// z).
pub open spec fn axis_crystals(state: Seq<u8>, row: Seq<usize>, axis: int) -> int {
    slot_crystal(state, row, 2 * axis) + slot_crystal(state, row, 2 * axis + 1)
}

/// The number of crystal neighbours in all six slots.
pub open spec fn total_crystals(state: Seq<u8>, row: Seq<usize>) -> int {
    axis_crystals(state, row, 0) + axis_crystals(state, row, 1) + axis_crystals(state, row, 2)
}

/// The number of crystal sites.
pub open spec fn count_crystal(state: Seq<u8>) -> nat
    decreases state.len(),
{
    if state.len() == 0 {
        0
    } else {
        count_crystal(state.drop_last()) + if state.last() == CRYSTAL {
            1nat
        } else {
            0nat
        }
    }
}

/// A site of phase `phase` carries the tag of its set exactly when it has an
/// in-domain neighbour of the other phase.
pub open spec fn side_matches(
    state: Seq<u8>,
    neibs: Seq<[usize; 6]>,
    m: FrontierModel,
    g: int,
    phase: u8,
) -> bool {
    m.tag[g] == adj_tag(phase) <==> (state[g] == phase && row_has(state, neibs[g]@, other(phase)))
}

/// The index holds the interface of the phase array: `GasAdj` is the set of
/// gas sites with a crystal neighbour, `CrystalAdj` the set of crystal sites
/// with a gas neighbour.
pub open spec fn interface_ok(state: Seq<u8>, neibs: Seq<[usize; 6]>, m: FrontierModel) -> bool {
    forall|g: int|
        0 <= g < state.len() ==> #[trigger] side_matches(state, neibs, m, g, GAS) && side_matches(
            state,
            neibs,
            m,
            g,
            CRYSTAL,
        )
}

/// Members of `GasAdj` are gas and members of `CrystalAdj` are crystal.
pub open spec fn tags_sound(state: Seq<u8>, m: FrontierModel) -> bool {
    forall|g: int|
        0 <= g < state.len() ==> (#[trigger] m.tag[g] == TAG_GAS_ADJ ==> state[g] == GAS) && (
        m.tag[g] == TAG_CRYSTAL_ADJ ==> state[g] == CRYSTAL)
}

/// A neighbour table whose entries are sites below `n` or `NONE`, and in
/// which every neighbour names the site back in the opposite slot.
pub open spec fn neibs_ok(neibs: Seq<[usize; 6]>, n: int) -> bool {
    crate::lattice::table_ok(neibs, n)
}

/// A neighbour table over `n` sites has `n` rows.
pub proof fn lemma_table_len(neibs: Seq<[usize; 6]>, n: int)
    requires
        neibs_ok(neibs, n),
    ensures
        neibs.len() == n,
{
    reveal(crate::lattice::table_ok);
}

/// The rows of a symmetric table are in range.
pub proof fn lemma_rows_in_range(neibs: Seq<[usize; 6]>, n: int, g: int)
    requires
        neibs_ok(neibs, n),
        0 <= g < n,
    ensures
        neibs.len() == n,
        row_in_range(neibs[g]@, n),
{
    reveal(crate::lattice::table_ok);
    assert forall|d: int| 0 <= d < 6 implies #[trigger] neibs[g]@[d] == NONE || neibs[g]@[d]
        < n by {
        let _ = neibs[g][d];
    }
}

/// Whether slot `d` of `row` holds a crystal site.
fn crystal_in_slot(states: &[u8], row: &[usize; 6], d: usize) -> (c: u8)
    requires
        row_in_range(row@, states@.len() as int),
        d < 6,
    ensures
        c == slot_crystal(states@, row@, d as int),
{
    let idx = row[d];
    if idx != usize::MAX && states[idx] == 1 {
        1
    } else {
        0
    }
}

/// Counts the crystal neighbours of a site along the x, y and z axes.
#[inline(always)]
pub fn compute_neighbor_sums(states: &[u8], idxg_nis: &[usize; 6]) -> (sums: (u8, u8, u8))
    requires
        row_in_range(idxg_nis@, states@.len() as int),
    ensures
        sums.0 == axis_crystals(states@, idxg_nis@, 0),
        sums.1 == axis_crystals(states@, idxg_nis@, 1),
        sums.2 == axis_crystals(states@, idxg_nis@, 2),
{
    let x_axis_neighbors = crystal_in_slot(states, idxg_nis, 0) + crystal_in_slot(
        states,
        idxg_nis,
        1,
    );
    let y_axis_neighbors = crystal_in_slot(states, idxg_nis, 2) + crystal_in_slot(
        states,
        idxg_nis,
        3,
    );
    let z_axis_neighbors = crystal_in_slot(states, idxg_nis, 4) + crystal_in_slot(
        states,
        idxg_nis,
        5,
    );
    (x_axis_neighbors, y_axis_neighbors, z_axis_neighbors)
}

/// Whether some in-domain neighbour in `row` has phase `phase`.
pub fn any_neighbor_is(states: &[u8], row: &[usize; 6], phase: u8) -> (found: bool)
    requires
        row_in_range(row@, states@.len() as int),
    ensures
        found == row_has(states@, row@, phase),
{
    let mut found = false;
    let mut d: usize = 0;
    while d < 6
        invariant
            d <= 6,
            row_in_range(row@, states@.len() as int),
            found == exists|j: int|
                0 <= j < d && #[trigger] row@[j] != NONE && states@[row@[j] as int] == phase,
        decreases 6 - d,
    {
        let n = row[d];
        if n != usize::MAX && states[n] == phase {
            found = true;
        }
        d += 1;
    }
    found
}

/// A replica at rest: the table is symmetric, the index is consistent and
/// covers the phase array, every site is gas or crystal, and the index holds
/// the interface.
pub open spec fn replica_ok(state: Seq<u8>, neibs: Seq<[usize; 6]>, front: &Frontier) -> bool {
    &&& neibs_ok(neibs, state.len() as int)
    &&& front.wf()
    &&& front@.n() == state.len()
    &&& phases_ok(state)
    &&& interface_ok(state, neibs, front@)
}

/// Each slot counts zero or one, so the total lies between 0 and 6; a slot
/// that holds no crystal keeps it below 6, one that holds crystal above 0.
pub proof fn lemma_total_bounds(state: Seq<u8>, row: Seq<usize>, d: int)
    requires
        0 <= d < 6,
    ensures
        0 <= total_crystals(state, row) <= 6,
        slot_crystal(state, row, d) == 0 ==> total_crystals(state, row) < 6,
        slot_crystal(state, row, d) == 1 ==> total_crystals(state, row) > 0,
{
}

/// When all six slots hold crystal the total is 6, when none does it is 0.
pub proof fn lemma_total_extremes(state: Seq<u8>, row: Seq<usize>)
    ensures
        (forall|d: int| 0 <= d < 6 ==> slot_crystal(state, row, d) == 1) ==> total_crystals(
            state,
            row,
        ) == 6,
        (forall|d: int| 0 <= d < 6 ==> slot_crystal(state, row, d) == 0) ==> total_crystals(
            state,
            row,
        ) == 0,
{
    if forall|d: int| 0 <= d < 6 ==> slot_crystal(state, row, d) == 1 {
        assert(slot_crystal(state, row, 0) == 1);
        assert(slot_crystal(state, row, 1) == 1);
        assert(slot_crystal(state, row, 2) == 1);
        assert(slot_crystal(state, row, 3) == 1);
        assert(slot_crystal(state, row, 4) == 1);
        assert(slot_crystal(state, row, 5) == 1);
    }
    if forall|d: int| 0 <= d < 6 ==> slot_crystal(state, row, d) == 0 {
        assert(slot_crystal(state, row, 0) == 0);
        assert(slot_crystal(state, row, 1) == 0);
        assert(slot_crystal(state, row, 2) == 0);
        assert(slot_crystal(state, row, 3) == 0);
        assert(slot_crystal(state, row, 4) == 0);
        assert(slot_crystal(state, row, 5) == 0);
    }
}

/// A neighbour relation read from the other side: when `b` is the neighbour
/// of `a` in slot `d`, `a` is the neighbour of `b` in the opposite slot.
pub proof fn lemma_back(neibs: Seq<[usize; 6]>, n: int, a: int, d: int)
    requires
        neibs_ok(neibs, n),
        0 <= a < n,
        0 <= d < 6,
        neibs[a]@[d] != NONE,
    ensures
        0 <= neibs[a]@[d] < n,
        0 <= opposite(d) < 6,
        neibs[neibs[a]@[d] as int]@[opposite(d)] == a,
{
    reveal(crate::lattice::table_ok);
    let _ = neibs[a][d];
}

/// Changing one site changes the number of crystal sites by the change at
/// that site.
pub proof fn lemma_count_update(state: Seq<u8>, s: int, to: u8)
    requires
        0 <= s < state.len(),
    ensures
        count_crystal(state.update(s, to)) + (if state[s] == CRYSTAL {
            1int
        } else {
            0int
        }) == count_crystal(state) + (if to == CRYSTAL {
            1int
        } else {
            0int
        }),
    decreases state.len(),
{
    let after = state.update(s, to);
    if s == state.len() - 1 {
        assert(after.drop_last() =~= state.drop_last());
    } else {
        assert(after.drop_last() =~= state.drop_last().update(s, to));
        lemma_count_update(state.drop_last(), s, to);
    }
}

/// On a lattice that is periodic along all three axes no site has an open
/// neighbour slot, so that no event there meets the boundary.
pub proof fn lemma_periodic_rows_closed(grid: &crate::lattice::Grid, g: int)
    requires
        grid.wf(),
        grid.px && grid.py && grid.pz,
        0 <= g < grid.size,
    ensures
        !row_open(grid.neibs@[g]@),
{
    assert forall|d: int| 0 <= d < 6 implies #[trigger] grid.neibs@[g]@[d] != NONE by {
        grid.lemma_periodic_closed(g, d);
        assert(grid.neibs@[g][d] as int == grid.spec_neighbor(g, d));
    }
}

/// The site in the middle of the lattice.
pub open spec fn spec_center(grid: &crate::lattice::Grid) -> int {
    crate::lattice::spec_index_of(
        grid.ny as int,
        grid.nz as int,
        grid.nx as int / 2,
        grid.ny as int / 2,
        grid.nz as int / 2,
    )
}

/// Makes the site in the middle of the lattice crystal. A lattice without
/// sites has no middle: the state is left as it is and `false` is returned.
pub fn activate_center(grid: &crate::lattice::Grid, state: &mut Vec<u8>) -> (done: bool)
    requires
        grid.dims_ok(),
        old(state)@.len() == grid.size,
    ensures
        done == (grid.size > 0),
        done ==> final(state)@ == old(state)@.update(spec_center(grid), CRYSTAL),
        !done ==> final(state)@ == old(state)@,
{
    if grid.size == 0 {
        return false;
    }
    proof {
        crate::lattice::lemma_coords_of_index(
            grid.nx as int,
            grid.ny as int,
            grid.nz as int,
            0,
        );
        crate::lattice::lemma_index_of_coords(
            grid.nx as int,
            grid.ny as int,
            grid.nz as int,
            grid.nx as int / 2,
            grid.ny as int / 2,
            grid.nz as int / 2,
        );
    }
    let center_id = grid.xyz_to_idx(grid.nx / 2, grid.ny / 2, grid.nz / 2);
    state.set(center_id, 1);
    true
}

} // verus!
