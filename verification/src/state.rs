//! The log of a replica: the current value of each integer scalar, and the
//! history that is collected for the scalars whose record flag is set.

use vstd::prelude::*;
use crate::frontier::Frontier;
use crate::io_handler::{decimals, spec_joined, write_log_row};
use crate::lattice::{lemma_coords_of_index, Grid};

verus! {

/// A scalar with its history. A history point is taken only while `is_on`
/// is set.
#[derive(Debug)]
pub struct LogEntry<T: Copy> {
    pub val: T,
    pub log: Vec<T>,
    pub is_on: bool,
}

impl<T: Copy> LogEntry<T> {
    /// A scalar with value `val` and an empty history.
    pub fn new(val: T, is_on: bool) -> (entry: Self)
        ensures
            entry.val == val,
            entry.log@ == Seq::<T>::empty(),
            entry.is_on == is_on,
    {
        Self { val, log: Vec::new(), is_on }
    }

    /// Appends the current value to the history if the record flag is set.
    pub fn push_if_enabled(&mut self)
        ensures
            final(self).val == old(self).val,
            final(self).is_on == old(self).is_on,
            final(self).log@ == (if old(self).is_on {
                old(self).log@.push(old(self).val)
            } else {
                old(self).log@
            }),
    {
        if self.is_on {
            self.log.push(self.val);
        }
    }
}

/// The integer scalars of a replica or of an ensemble.
#[derive(Debug)]
pub struct SimLog {
    /// How many events were refused because the concentration would have
    /// become negative.
    pub conc_neg_count: u64,
    /// The number of crystal sites.
    pub n_cryst: LogEntry<u64>,
    /// The number of distinct x, y and z coordinates among the members of
    /// `CrystalAdj`.
    pub cryst_sx: LogEntry<usize>,
    pub cryst_sy: LogEntry<usize>,
    pub cryst_sz: LogEntry<usize>,
    /// The last step that was completed.
    pub mk_step: LogEntry<u64>,
}

/// Whether some member has coordinate `c` along `axis` (0 for x, 1 for y, 2
/// for z).
pub open spec fn coord_taken(grid: &Grid, members: Seq<usize>, upto: int, axis: int, c: int) -> bool {
    exists|i: int| 0 <= i < upto && axis_coord(grid, #[trigger] members[i] as int, axis) == c
}

/// The coordinate of site `g` along `axis`.
pub open spec fn axis_coord(grid: &Grid, g: int, axis: int) -> int {
    let (x, y, z) = grid.spec_coords(g);
    if axis == 0 {
        x
    } else if axis == 1 {
        y
    } else {
        z
    }
}

/// The number of coordinates below `bound` along `axis` that some member
/// has.
pub open spec fn coords_taken(grid: &Grid, members: Seq<usize>, axis: int, bound: int) -> nat
    decreases bound,
{
    if bound <= 0 {
        0
    } else {
        coords_taken(grid, members, axis, bound - 1) + if coord_taken(
            grid,
            members,
            members.len() as int,
            axis,
            bound - 1,
        ) {
            1nat
        } else {
            0nat
        }
    }
}

/// The number of entries equal to one among the first `bound`.
pub open spec fn marks_set(marks: Seq<usize>, bound: int) -> nat
    decreases bound,
{
    if bound <= 0 {
        0
    } else {
        marks_set(marks, bound - 1) + if marks[bound - 1] == 1 {
            1nat
        } else {
            0nat
        }
    }
}

/// The entries of `marks` are zero or one, and one exactly at the
/// coordinates that one of the first `upto` members has along `axis`.
pub open spec fn marks_match(
    grid: &Grid,
    members: Seq<usize>,
    upto: int,
    axis: int,
    marks: Seq<usize>,
) -> bool {
    forall|c: int|
        0 <= c < marks.len() ==> (#[trigger] marks[c] == 1 <==> coord_taken(
            grid,
            members,
            upto,
            axis,
            c,
        )) && (marks[c] == 0 || marks[c] == 1)
}

/// Marks that match all members count the coordinates that are taken.
proof fn lemma_marks_count(grid: &Grid, members: Seq<usize>, axis: int, marks: Seq<usize>, bound: int)
    requires
        marks_match(grid, members, members.len() as int, axis, marks),
        0 <= bound <= marks.len(),
    ensures
        marks_set(marks, bound) == coords_taken(grid, members, axis, bound),
        marks_set(marks, bound) <= bound,
    decreases bound,
{
    if bound > 0 {
        lemma_marks_count(grid, members, axis, marks, bound - 1);
        let _ = marks[bound - 1];
    }
}

/// Sets every entry to zero.
fn clear_marks(buf: &mut Vec<usize>)
    ensures
        final(buf)@.len() == old(buf)@.len(),
        forall|c: int| 0 <= c < final(buf)@.len() ==> final(buf)@[c] == 0,
{
    let n = buf.len();
    let mut i: usize = 0;
    while i < n
        invariant
            i <= n,
            n == buf@.len(),
            forall|c: int| 0 <= c < i ==> buf@[c] == 0,
        decreases n - i,
    {
        buf.set(i, 0);
        i += 1;
    }
}

/// The number of entries equal to one.
fn count_marks(buf: &Vec<usize>) -> (total: usize)
    requires
        forall|c: int| 0 <= c < buf@.len() ==> #[trigger] buf@[c] == 0 || buf@[c] == 1,
    ensures
        total == marks_set(buf@, buf@.len() as int),
{
    let n = buf.len();
    let mut total: usize = 0;
    let mut i: usize = 0;
    while i < n
        invariant
            i <= n,
            n == buf@.len(),
            total == marks_set(buf@, i as int),
            total <= i,
            forall|c: int| 0 <= c < buf@.len() ==> #[trigger] buf@[c] == 0 || buf@[c] == 1,
        decreases n - i,
    {
        let _ = buf[i];
        total += buf[i];
        i += 1;
    }
    total
}

impl SimLog {
    /// Every scalar is zero, every record flag is set, and no history point
    /// has been taken.
    pub open spec fn is_fresh(&self) -> bool {
        &&& self.conc_neg_count == 0
        &&& self.n_cryst.val == 0 && self.n_cryst.is_on && self.n_cryst.log@.len() == 0
        &&& self.cryst_sx.val == 0 && self.cryst_sx.is_on && self.cryst_sx.log@.len() == 0
        &&& self.cryst_sy.val == 0 && self.cryst_sy.is_on && self.cryst_sy.log@.len() == 0
        &&& self.cryst_sz.val == 0 && self.cryst_sz.is_on && self.cryst_sz.log@.len() == 0
        &&& self.mk_step.val == 0 && self.mk_step.is_on && self.mk_step.log@.len() == 0
    }

    /// A log with every scalar at zero and every record flag set.
    pub fn new() -> (log: Self)
        ensures
            log.is_fresh(),
    {
        Self {
            conc_neg_count: 0,
            n_cryst: LogEntry::new(0, true),
            cryst_sx: LogEntry::new(0, true),
            cryst_sy: LogEntry::new(0, true),
            cryst_sz: LogEntry::new(0, true),
            mk_step: LogEntry::new(0, true),
        }
    }

    /// Changes the number of crystal sites by `dn_cryst`.
    pub fn update_n_sizes(&mut self, dn_cryst: i64)
        requires
            0 <= old(self).n_cryst.val + dn_cryst <= u64::MAX,
        ensures
            final(self).n_cryst.val == old(self).n_cryst.val + dn_cryst,
            final(self).n_cryst.log == old(self).n_cryst.log,
            final(self).n_cryst.is_on == old(self).n_cryst.is_on,
            final(self).conc_neg_count == old(self).conc_neg_count,
            final(self).cryst_sx == old(self).cryst_sx,
            final(self).cryst_sy == old(self).cryst_sy,
            final(self).cryst_sz == old(self).cryst_sz,
            final(self).mk_step == old(self).mk_step,
    {
        if dn_cryst >= 0 {
            self.n_cryst.val = self.n_cryst.val + (dn_cryst as u64);
        } else {
            let back: u64 = ((-(dn_cryst + 1)) as u64) + 1;
            self.n_cryst.val = self.n_cryst.val - back;
        }
    }

    /// Counts one more event refused for a negative concentration.
    pub fn note_negative_conc(&mut self)
        requires
            old(self).conc_neg_count < u64::MAX,
        ensures
            final(self).conc_neg_count == old(self).conc_neg_count + 1,
            final(self).n_cryst == old(self).n_cryst,
            final(self).cryst_sx == old(self).cryst_sx,
            final(self).cryst_sy == old(self).cryst_sy,
            final(self).cryst_sz == old(self).cryst_sz,
            final(self).mk_step == old(self).mk_step,
    {
        self.conc_neg_count += 1;
    }

    /// Measures the crystal along each axis as the number of distinct
    /// coordinates among the members of `CrystalAdj`; all three are zero when
    /// the set is empty. The scratch buffers of the lattice are overwritten.
    pub fn measure_cryst_sizes(&mut self, grid: &mut Grid, front: &Frontier)
        requires
            old(grid).wf(),
            front.wf(),
            front@.n() == old(grid).size,
        ensures
            final(grid).wf(),
            final(grid).nx == old(grid).nx && final(grid).ny == old(grid).ny && final(grid).nz
                == old(grid).nz,
            final(grid).px == old(grid).px && final(grid).py == old(grid).py && final(grid).pz
                == old(grid).pz,
            final(grid).neibs == old(grid).neibs,
            final(self).cryst_sx.val == coords_taken(
                old(grid),
                front@.tpbs,
                0,
                old(grid).nx as int,
            ),
            final(self).cryst_sy.val == coords_taken(
                old(grid),
                front@.tpbs,
                1,
                old(grid).ny as int,
            ),
            final(self).cryst_sz.val == coords_taken(
                old(grid),
                front@.tpbs,
                2,
                old(grid).nz as int,
            ),
            front@.tpbs.len() == 0 ==> final(self).cryst_sx.val == 0 && final(self).cryst_sy.val
                == 0 && final(self).cryst_sz.val == 0,
            final(self).cryst_sx.log == old(self).cryst_sx.log && final(self).cryst_sx.is_on == old(
                self,
            ).cryst_sx.is_on,
            final(self).cryst_sy.log == old(self).cryst_sy.log && final(self).cryst_sy.is_on == old(
                self,
            ).cryst_sy.is_on,
            final(self).cryst_sz.log == old(self).cryst_sz.log && final(self).cryst_sz.is_on == old(
                self,
            ).cryst_sz.is_on,
            final(self).conc_neg_count == old(self).conc_neg_count,
            final(self).n_cryst == old(self).n_cryst,
            final(self).mk_step == old(self).mk_step,
    {
        let ghost g0 = *grid;
        let ghost members = front@.tpbs;
        let len = front.tpb_size();
        if len == 0 {
            self.cryst_sx.val = 0;
            self.cryst_sy.val = 0;
            self.cryst_sz.val = 0;
            proof {
                lemma_none_taken(&g0, members, 0, g0.nx as int);
                lemma_none_taken(&g0, members, 1, g0.ny as int);
                lemma_none_taken(&g0, members, 2, g0.nz as int);
            }
            return ;
        }
        clear_marks(&mut grid.nx_ib);
        clear_marks(&mut grid.ny_ib);
        clear_marks(&mut grid.nz_ib);

        let mut k: usize = 0;
        while k < len
            invariant
                k <= len,
                len == members.len(),
                members == front@.tpbs,
                front.wf(),
                front@.n() == g0.size,
                g0.wf(),
                grid.wf(),
                grid.nx == g0.nx && grid.ny == g0.ny && grid.nz == g0.nz,
                grid.size == g0.size && grid.size_zy == g0.size_zy,
                grid.px == g0.px && grid.py == g0.py && grid.pz == g0.pz,
                grid.neibs == g0.neibs,
                marks_match(&g0, members, k as int, 0, grid.nx_ib@),
                marks_match(&g0, members, k as int, 1, grid.ny_ib@),
                marks_match(&g0, members, k as int, 2, grid.nz_ib@),
            decreases len - k,
        {
            let idxg = front.tpb_at(k);
            proof {
                lemma_coords_of_index(g0.nx as int, g0.ny as int, g0.nz as int, idxg as int);
                assert(g0.nz * g0.ny > 0) by (nonlinear_arith)
                    requires
                        g0.nz > 0,
                        g0.ny > 0,
                ;
            }
            let (x, y, z) = grid.idx_to_xyz(idxg);
            let ghost bx = grid.nx_ib@;
            let ghost by_ = grid.ny_ib@;
            let ghost bz = grid.nz_ib@;
            grid.nx_ib.set(x, 1);
            grid.ny_ib.set(y, 1);
            grid.nz_ib.set(z, 1);
            proof {
                assert(grid.rows_ok(grid.size as int)) by {
                    assert forall|idx: int, dir: int|
                        0 <= idx < grid.size && 0 <= dir < 6 implies (
                    #[trigger] grid.neibs@[idx][dir]) as int == grid.spec_neighbor(idx, dir) by {
                        assert(g0.neibs@[idx][dir] as int == g0.spec_neighbor(idx, dir));
                    }
                }
                lemma_mark_next(&g0, members, k as int, 0, bx, grid.nx_ib@);
                lemma_mark_next(&g0, members, k as int, 1, by_, grid.ny_ib@);
                lemma_mark_next(&g0, members, k as int, 2, bz, grid.nz_ib@);
            }
            k += 1;
        }
        proof {
            lemma_marks_count(&g0, members, 0, grid.nx_ib@, g0.nx as int);
            lemma_marks_count(&g0, members, 1, grid.ny_ib@, g0.ny as int);
            lemma_marks_count(&g0, members, 2, grid.nz_ib@, g0.nz as int);
        }
        self.cryst_sx.val = count_marks(&grid.nx_ib);
        self.cryst_sy.val = count_marks(&grid.ny_ib);
        self.cryst_sz.val = count_marks(&grid.nz_ib);
    }

    /// The rows of the history file that hold whole numbers, in the order of
    /// the file: the three crystal sizes and the step.
    pub fn log_rows(&self) -> (rows: Vec<Vec<u8>>)
        ensures
            rows@.len() == 4,
            rows@[0]@ == spec_joined(decimals(widened(self.cryst_sx.log@))),
            rows@[1]@ == spec_joined(decimals(widened(self.cryst_sy.log@))),
            rows@[2]@ == spec_joined(decimals(widened(self.cryst_sz.log@))),
            rows@[3]@ == spec_joined(decimals(self.mk_step.log@)),
    {
        let mut rows: Vec<Vec<u8>> = Vec::new();
        rows.push(size_row(&self.cryst_sx.log));
        rows.push(size_row(&self.cryst_sy.log));
        rows.push(size_row(&self.cryst_sz.log));
        rows.push(write_log_row(&self.mk_step.log));
        rows
    }

    /// Takes a history point of every scalar whose record flag is set.
    pub fn add_log_point(&mut self)
        ensures
            final(self).conc_neg_count == old(self).conc_neg_count,
            final(self).n_cryst.val == old(self).n_cryst.val && final(self).n_cryst.is_on == old(
                self,
            ).n_cryst.is_on,
            final(self).cryst_sx.val == old(self).cryst_sx.val && final(self).cryst_sx.is_on
                == old(self).cryst_sx.is_on,
            final(self).cryst_sy.val == old(self).cryst_sy.val && final(self).cryst_sy.is_on
                == old(self).cryst_sy.is_on,
            final(self).cryst_sz.val == old(self).cryst_sz.val && final(self).cryst_sz.is_on
                == old(self).cryst_sz.is_on,
            final(self).mk_step.val == old(self).mk_step.val && final(self).mk_step.is_on == old(
                self,
            ).mk_step.is_on,
            final(self).n_cryst.log@ == pushed(old(self).n_cryst),
            final(self).cryst_sx.log@ == pushed(old(self).cryst_sx),
            final(self).cryst_sy.log@ == pushed(old(self).cryst_sy),
            final(self).cryst_sz.log@ == pushed(old(self).cryst_sz),
            final(self).mk_step.log@ == pushed(old(self).mk_step),
    {
        self.n_cryst.push_if_enabled();
        self.cryst_sx.push_if_enabled();
        self.cryst_sy.push_if_enabled();
        self.cryst_sz.push_if_enabled();
        self.mk_step.push_if_enabled();
    }
}

/// The values as `u64`.
pub open spec fn widened(values: Seq<usize>) -> Seq<u64> {
    Seq::new(values.len(), |i: int| values[i] as u64)
}

/// The row of a history of sizes.
fn size_row(values: &Vec<usize>) -> (line: Vec<u8>)
    ensures
        line@ == spec_joined(decimals(widened(values@))),
{
    let mut wide: Vec<u64> = Vec::new();
    let mut i: usize = 0;
    while i < values.len()
        invariant
            i <= values@.len(),
            wide@.len() == i,
            forall|j: int| 0 <= j < i ==> wide@[j] == values@[j] as u64,
        decreases values@.len() - i,
    {
        wide.push(values[i] as u64);
        i += 1;
    }
    assert(wide@ =~= widened(values@));
    write_log_row(&wide)
}

/// The history of a scalar after a history point: one entry longer, by the
/// current value, if the record flag is set.
pub open spec fn pushed<T: Copy>(entry: LogEntry<T>) -> Seq<T> {
    if entry.is_on {
        entry.log@.push(entry.val)
    } else {
        entry.log@
    }
}

/// Without members no coordinate is taken.
proof fn lemma_none_taken(grid: &Grid, members: Seq<usize>, axis: int, bound: int)
    requires
        members.len() == 0,
    ensures
        coords_taken(grid, members, axis, bound) == 0,
    decreases bound,
{
    if bound > 0 {
        lemma_none_taken(grid, members, axis, bound - 1);
    }
}

/// Marking the coordinate of member `k` makes the marks match one member
/// more.
proof fn lemma_mark_next(
    grid: &Grid,
    members: Seq<usize>,
    k: int,
    axis: int,
    before: Seq<usize>,
    after: Seq<usize>,
)
    requires
        0 <= k < members.len(),
        marks_match(grid, members, k, axis, before),
        0 <= axis_coord(grid, members[k] as int, axis) < before.len(),
        after == before.update(axis_coord(grid, members[k] as int, axis), 1usize),
    ensures
        marks_match(grid, members, k + 1, axis, after),
{
    let c0 = axis_coord(grid, members[k] as int, axis);
    assert forall|c: int| 0 <= c < after.len() implies (#[trigger] after[c] == 1 <==> coord_taken(
        grid,
        members,
        k + 1,
        axis,
        c,
    )) && (after[c] == 0 || after[c] == 1) by {
        let _ = before[c];
        if coord_taken(grid, members, k, axis, c) {
            let i = choose|i: int|
                0 <= i < k && axis_coord(grid, #[trigger] members[i] as int, axis) == c;
            assert(0 <= i < k + 1 && axis_coord(grid, members[i] as int, axis) == c);
        }
        if c == c0 {
            assert(0 <= k < k + 1 && axis_coord(grid, members[k] as int, axis) == c);
        }
        if coord_taken(grid, members, k + 1, axis, c) && c != c0 {
            let i = choose|i: int|
                0 <= i < k + 1 && axis_coord(grid, #[trigger] members[i] as int, axis) == c;
            assert(i != k);
            assert(0 <= i < k && axis_coord(grid, members[i] as int, axis) == c);
        }
    }
}

/// The coordinates that are taken depend on the dimensions of the lattice
/// only.
pub proof fn lemma_coords_taken_dims(
    a: &Grid,
    b: &Grid,
    members: Seq<usize>,
    axis: int,
    bound: int,
)
    requires
        a.ny == b.ny,
        a.nz == b.nz,
    ensures
        coords_taken(a, members, axis, bound) == coords_taken(b, members, axis, bound),
    decreases bound,
{
    if bound > 0 {
        lemma_coords_taken_dims(a, b, members, axis, bound - 1);
        let n = members.len() as int;
        if coord_taken(a, members, n, axis, bound - 1) {
            let i = choose|i: int|
                0 <= i < n && axis_coord(a, #[trigger] members[i] as int, axis) == bound - 1;
            assert(axis_coord(b, members[i] as int, axis) == bound - 1);
        }
        if coord_taken(b, members, n, axis, bound - 1) {
            let i = choose|i: int|
                0 <= i < n && axis_coord(b, #[trigger] members[i] as int, axis) == bound - 1;
            assert(axis_coord(a, members[i] as int, axis) == bound - 1);
        }
    }
}

} // verus!
