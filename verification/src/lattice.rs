//! The cubic lattice: linear site indices, coordinates, and the table of the
//! six neighbours of every site under per-axis periodicity.

use vstd::prelude::*;
use vstd::arithmetic::div_mod::{
    lemma_div_denominator, lemma_fundamental_div_mod, lemma_fundamental_div_mod_converse,
    lemma_mod_bound,
};

verus! {

/// `isize::rem_euclid`: the least non-negative remainder of `lhs` modulo
/// `rhs`. It panics on a zero divisor and on `isize::MIN` with divisor `-1`,
/// which are left out.
pub assume_specification[ isize::rem_euclid ](lhs: isize, rhs: isize) -> (r: isize)
    requires
        rhs != 0,
        !(lhs == isize::MIN && rhs == -1),
    ensures
        r == (lhs as int) % (rhs as int),
;

/// Marks a neighbour that lies outside a non-periodic face of the lattice.
pub const NONE: usize = usize::MAX;

/// A coordinate after the boundary rule of one axis: kept when it lies in
/// `[0, dim)`, wrapped by Euclidean remainder on a periodic axis, and `NONE`
/// otherwise.
pub open spec fn spec_wrap(coord: int, dim: int, periodic: bool) -> int {
    if 0 <= coord < dim {
        coord
    } else if periodic {
        coord % dim
    } else {
        NONE as int
    }
}

/// The linear index of the site at in-domain coordinates `(x, y, z)`; `x` is
/// the slowest axis.
pub open spec fn spec_index_of(ny: int, nz: int, x: int, y: int, z: int) -> int {
    z + y * nz + x * (nz * ny)
}

/// The coordinate step of neighbour slot `dir`: `-x, +x, -y, +y, -z, +z`.
pub open spec fn spec_offset(dir: int) -> (int, int, int) {
    if dir == 0 {
        (-1, 0, 0)
    } else if dir == 1 {
        (1, 0, 0)
    } else if dir == 2 {
        (0, -1, 0)
    } else if dir == 3 {
        (0, 1, 0)
    } else if dir == 4 {
        (0, 0, -1)
    } else {
        (0, 0, 1)
    }
}

/// The slot that points back: `-x` and `+x`, `-y` and `+y`, `-z` and `+z` are
/// opposite to each other.
pub open spec fn opposite(dir: int) -> int {
    if dir % 2 == 0 {
        dir + 1
    } else {
        dir - 1
    }
}

/// The lattice: its dimensions and sizes, its periodicity flags, one scratch
/// buffer for each axis, and the table of the six neighbours of every site.
#[derive(Debug)]
pub struct Grid {
    pub nx: usize,
    pub ny: usize,
    pub nz: usize,
    pub size: usize,
    pub size_xy: usize,
    pub size_zx: usize,
    pub size_zy: usize,
    pub px: bool,
    pub py: bool,
    pub pz: bool,
    pub nx_ib: Vec<usize>,
    pub ny_ib: Vec<usize>,
    pub nz_ib: Vec<usize>,
    pub neibs: Vec<[usize; 6]>,
}

/// Whether a lattice of these dimensions can be indexed with `usize` and its
/// coordinates stepped in `isize`.
pub open spec fn dims_fit(nx: usize, ny: usize, nz: usize) -> bool {
    &&& nx <= isize::MAX
    &&& ny <= isize::MAX
    &&& nz <= isize::MAX
    &&& nx * ny <= usize::MAX
    &&& nz * nx <= usize::MAX
    &&& nz * ny <= usize::MAX
    &&& nx * ny * nz <= usize::MAX
}

/// Whether the dimensions can be indexed, as `dims_fit` says.
pub fn dims_fit_check(nx: usize, ny: usize, nz: usize) -> (fits: bool)
    ensures
        fits == dims_fit(nx, ny, nz),
{
    let top = usize::MAX as u128;
    let half = isize::MAX as u128;
    let (x, y, z) = (nx as u128, ny as u128, nz as u128);
    if x > half || y > half || z > half {
        return false;
    }
    assert(x * y <= 0x7fff_ffff_ffff_ffff * 0x7fff_ffff_ffff_ffff && z * x
        <= 0x7fff_ffff_ffff_ffff * 0x7fff_ffff_ffff_ffff && z * y <= 0x7fff_ffff_ffff_ffff
        * 0x7fff_ffff_ffff_ffff) by (nonlinear_arith)
        requires
            0 <= x <= 0x7fff_ffff_ffff_ffff,
            0 <= y <= 0x7fff_ffff_ffff_ffff,
            0 <= z <= 0x7fff_ffff_ffff_ffff,
    ;
    let xy = x * y;
    if xy > top || z * x > top || z * y > top {
        return false;
    }
    assert(xy * z <= 0xffff_ffff_ffff_ffff * 0x7fff_ffff_ffff_ffff) by (nonlinear_arith)
        requires
            0 <= xy <= 0xffff_ffff_ffff_ffff,
            0 <= z <= 0x7fff_ffff_ffff_ffff,
    ;
    xy * z <= top
}

/// In-domain coordinates give an index below the lattice size, and the index
/// gives the coordinates back.
pub proof fn lemma_index_of_coords(nx: int, ny: int, nz: int, x: int, y: int, z: int)
    requires
        0 <= x < nx,
        0 <= y < ny,
        0 <= z < nz,
    ensures
        0 <= spec_index_of(ny, nz, x, y, z) < nx * ny * nz,
        0 <= y * nz <= spec_index_of(ny, nz, x, y, z),
        0 <= x * (nz * ny) <= spec_index_of(ny, nz, x, y, z),
        spec_index_of(ny, nz, x, y, z) % nz == z,
        (spec_index_of(ny, nz, x, y, z) / nz) % ny == y,
        spec_index_of(ny, nz, x, y, z) / (nz * ny) == x,
{
    let idx = spec_index_of(ny, nz, x, y, z);
    let row = y + x * ny;
    assert(idx == nz * row + z && 0 <= row && row <= nx * ny - 1 && 0 <= y * nz && 0 <= x * (nz
        * ny) && idx <= nx * ny * nz - 1) by (nonlinear_arith)
        requires
            idx == z + y * nz + x * (nz * ny),
            row == y + x * ny,
            0 <= x < nx,
            0 <= y < ny,
            0 <= z < nz,
    ;
    lemma_fundamental_div_mod_converse(idx, nz, row, z);
    assert(row == ny * x + y) by (nonlinear_arith)
        requires
            row == y + x * ny,
    ;
    lemma_fundamental_div_mod_converse(row, ny, x, y);
    lemma_div_denominator(idx, nz, ny);
}

/// An index below the lattice size has in-domain coordinates, and they give
/// the index back.
pub proof fn lemma_coords_of_index(nx: int, ny: int, nz: int, idx: int)
    requires
        0 <= idx < nx * ny * nz,
        0 <= nx,
        0 <= ny,
        0 <= nz,
    ensures
        0 < nx && 0 < ny && 0 < nz,
        0 <= idx / (nz * ny) < nx,
        0 <= (idx / nz) % ny < ny,
        0 <= idx % nz < nz,
        spec_index_of(ny, nz, idx / (nz * ny), (idx / nz) % ny, idx % nz) == idx,
{
    assert(0 < nx && 0 < ny && 0 < nz) by (nonlinear_arith)
        requires
            0 <= idx < nx * ny * nz,
            0 <= nx,
            0 <= ny,
            0 <= nz,
    ;
    let row = idx / nz;
    lemma_fundamental_div_mod(idx, nz);
    lemma_mod_bound(idx, nz);
    lemma_fundamental_div_mod(row, ny);
    lemma_mod_bound(row, ny);
    lemma_div_denominator(idx, nz, ny);
    let x = row / ny;
    let y = row % ny;
    let z = idx % nz;
    assert(0 <= row && 0 <= x && x < nx && z + y * nz + x * (nz * ny) == idx) by (nonlinear_arith)
        requires
            idx == nz * row + z,
            row == ny * x + y,
            0 <= z < nz,
            0 <= y < ny,
            0 <= idx < nx * ny * nz,
            0 < nx,
            0 < ny,
            0 < nz,
    ;
}

/// A step along a periodic or interior axis can be taken back: the wrapped
/// coordinate lies in the domain, and the opposite step from it wraps to the
/// start.
pub proof fn lemma_wrap_back(c: int, dim: int, periodic: bool, step: int)
    requires
        0 <= c < dim,
        dim <= isize::MAX,
        step == 1 || step == -1,
        spec_wrap(c + step, dim, periodic) != NONE,
    ensures
        0 <= spec_wrap(c + step, dim, periodic) < dim,
        spec_wrap(spec_wrap(c + step, dim, periodic) - step, dim, periodic) == c,
{
    lemma_fundamental_div_mod_converse(-1, dim, -1, dim - 1);
    lemma_fundamental_div_mod_converse(dim, dim, 1, 0);
}

/// A neighbour table over `n` sites whose entries are sites or `NONE`, and in
/// which every neighbour names the site back in the opposite slot.
#[verifier::opaque]
pub open spec fn table_ok(neibs: Seq<[usize; 6]>, n: int) -> bool {
    &&& neibs.len() == n
    &&& forall|a: int, dir: int|
        0 <= a < n && 0 <= dir < 6 && (#[trigger] neibs[a][dir]) != NONE ==> neibs[a][dir] < n
            && neibs[neibs[a][dir] as int][opposite(dir)] == a
}

impl Grid {
    /// The size fields agree with the dimensions, and the dimensions fit.
    pub open spec fn dims_ok(&self) -> bool {
        &&& dims_fit(self.nx, self.ny, self.nz)
        &&& self.size == self.nx * self.ny * self.nz
        &&& self.size_xy == self.nx * self.ny
        &&& self.size_zx == self.nz * self.nx
        &&& self.size_zy == self.nz * self.ny
    }

    /// The coordinates of a site.
    pub open spec fn spec_coords(&self, idx: int) -> (int, int, int) {
        (idx / (self.nz * self.ny), (idx / (self.nz as int)) % (self.ny as int), idx % (
        self.nz as int))
    }

    /// The site at coordinates that may lie one step outside the domain, after
    /// the boundary rule of every axis; `NONE` when an axis rejects them.
    pub open spec fn spec_site(&self, x: int, y: int, z: int) -> int {
        let xp = spec_wrap(x, self.nx as int, self.px);
        let yp = spec_wrap(y, self.ny as int, self.py);
        let zp = spec_wrap(z, self.nz as int, self.pz);
        if xp != NONE && yp != NONE && zp != NONE {
            spec_index_of(self.ny as int, self.nz as int, xp, yp, zp)
        } else {
            NONE as int
        }
    }

    /// The neighbour of site `idx` in slot `dir`.
    pub open spec fn spec_neighbor(&self, idx: int, dir: int) -> int {
        let (x, y, z) = self.spec_coords(idx);
        let (dx, dy, dz) = spec_offset(dir);
        self.spec_site(x + dx, y + dy, z + dz)
    }

    /// Rows `0..upto` of the neighbour table hold the neighbours of their
    /// sites.
    pub open spec fn rows_ok(&self, upto: int) -> bool {
        forall|idx: int, dir: int|
            0 <= idx < upto && 0 <= dir < 6 ==> (#[trigger] self.neibs@[idx][dir]) as int
                == self.spec_neighbor(idx, dir)
    }

    /// The lattice is complete: sizes, scratch buffers and the whole neighbour
    /// table.
    pub open spec fn wf(&self) -> bool {
        &&& self.dims_ok()
        &&& self.nx_ib@.len() == self.nx
        &&& self.ny_ib@.len() == self.ny
        &&& self.nz_ib@.len() == self.nz
        &&& self.neibs@.len() == self.size
        &&& self.rows_ok(self.size as int)
    }

    /// Builds the lattice with its neighbour table.
    #[inline(always)]
    pub fn new(nx: usize, ny: usize, nz: usize, px: bool, py: bool, pz: bool) -> (grid: Self)
        requires
            dims_fit(nx, ny, nz),
        ensures
            grid.wf(),
            grid.nx == nx,
            grid.ny == ny,
            grid.nz == nz,
            grid.px == px,
            grid.py == py,
            grid.pz == pz,
            forall|i: int| 0 <= i < nx ==> grid.nx_ib@[i] == 0,
            forall|i: int| 0 <= i < ny ==> grid.ny_ib@[i] == 0,
            forall|i: int| 0 <= i < nz ==> grid.nz_ib@[i] == 0,
    {
        let size_xy = nx * ny;
        let size = size_xy * nz;
        let mut neibs: Vec<[usize; 6]> = Vec::new();
        let mut i: usize = 0;
        while i < size
            invariant
                i <= size,
                neibs@.len() == i,
            decreases size - i,
        {
            neibs.push([NONE, NONE, NONE, NONE, NONE, NONE]);
            i += 1;
        }
        let mut grid = Grid {
            nx,
            ny,
            nz,
            size,
            size_xy,
            size_zx: nz * nx,
            size_zy: nz * ny,
            px,
            py,
            pz,
            nx_ib: zeros(nx),
            ny_ib: zeros(ny),
            nz_ib: zeros(nz),
            neibs,
        };
        grid.precomp_neibs();
        grid
    }

    /// The six neighbours of site `idxg`, in the order `-x, +x, -y, +y, -z,
    /// +z`.
    #[inline(always)]
    pub fn neighbors(&self, idxg: usize) -> (row: &[usize; 6])
        requires
            idxg < self.neibs@.len(),
        ensures
            *row == self.neibs@[idxg as int],
    {
        &self.neibs[idxg]
    }

    /// The linear index of the site at `(x, y, z)`.
    #[inline(always)]
    pub fn xyz_to_idx(&self, x: usize, y: usize, z: usize) -> (idx: usize)
        requires
            z + y * self.nz + x * self.size_zy <= usize::MAX,
        ensures
            idx == z + y * self.nz + x * self.size_zy,
            self.dims_ok() ==> idx == spec_index_of(
                self.ny as int,
                self.nz as int,
                x as int,
                y as int,
                z as int,
            ),
    {
        assert(0 <= y * self.nz && 0 <= x * self.size_zy) by (nonlinear_arith);
        z + y * self.nz + x * self.size_zy
    }

    /// The coordinates of site `idx`.
    #[inline(always)]
    pub fn idx_to_xyz(&self, idx: usize) -> (xyz: (usize, usize, usize))
        requires
            self.ny > 0,
            self.nz > 0,
            self.size_zy > 0,
        ensures
            xyz.0 == idx / self.size_zy,
            xyz.1 == (idx / self.nz) % self.ny,
            xyz.2 == idx % self.nz,
            self.dims_ok() ==> self.spec_coords(idx as int) == (
                xyz.0 as int,
                xyz.1 as int,
                xyz.2 as int,
            ),
            self.dims_ok() && idx < self.size ==> xyz.0 < self.nx && xyz.1 < self.ny && xyz.2
                < self.nz,
    {
        let z = idx % self.nz;
        let y = (idx / self.nz) % self.ny;
        let x = idx / self.size_zy;
        proof {
            if self.dims_ok() && idx < self.size {
                lemma_coords_of_index(
                    self.nx as int,
                    self.ny as int,
                    self.nz as int,
                    idx as int,
                );
            }
        }
        (x, y, z)
    }

    /// One coordinate under the boundary rule of its axis.
    #[inline(always)]
    pub fn xyz_to_periodic_sub(coord: isize, dim_size: usize, periodic: bool) -> (r: usize)
        requires
            dim_size <= isize::MAX,
            periodic ==> dim_size > 0,
        ensures
            r == spec_wrap(coord as int, dim_size as int, periodic),
            r != NONE ==> r < dim_size,
    {
        let dim = dim_size as isize;
        if 0 <= coord && coord < dim {
            coord as usize
        } else if periodic {
            proof {
                lemma_mod_bound(coord as int, dim as int);
            }
            coord.rem_euclid(dim) as usize
        } else {
            usize::MAX
        }
    }

    /// Three coordinates, each under the boundary rule of its axis.
    #[inline(always)]
    pub fn xyz_to_periodic(&self, x: isize, y: isize, z: isize) -> (r: (usize, usize, usize))
        requires
            self.nx <= isize::MAX && (self.px ==> self.nx > 0),
            self.ny <= isize::MAX && (self.py ==> self.ny > 0),
            self.nz <= isize::MAX && (self.pz ==> self.nz > 0),
        ensures
            r.0 == spec_wrap(x as int, self.nx as int, self.px),
            r.1 == spec_wrap(y as int, self.ny as int, self.py),
            r.2 == spec_wrap(z as int, self.nz as int, self.pz),
    {
        (
            Self::xyz_to_periodic_sub(x, self.nx, self.px),
            Self::xyz_to_periodic_sub(y, self.ny, self.py),
            Self::xyz_to_periodic_sub(z, self.nz, self.pz),
        )
    }

    /// The site reached from in-domain coordinates by a step that may leave
    /// the domain.
    fn site_at(&self, x: isize, y: isize, z: isize) -> (r: usize)
        requires
            self.dims_ok(),
            self.nx > 0 && self.ny > 0 && self.nz > 0,
        ensures
            r == self.spec_site(x as int, y as int, z as int),
            r != NONE ==> r < self.size,
    {
        let (xp, yp, zp) = self.xyz_to_periodic(x, y, z);
        if xp != usize::MAX && yp != usize::MAX && zp != usize::MAX {
            proof {
                lemma_index_of_coords(
                    self.nx as int,
                    self.ny as int,
                    self.nz as int,
                    xp as int,
                    yp as int,
                    zp as int,
                );
            }
            zp + yp * self.nz + xp * self.size_zy
        } else {
            usize::MAX
        }
    }

    /// Fills the neighbour table from the dimensions and periodicity flags.
    #[inline(always)]
    pub fn precomp_neibs(&mut self)
        requires
            old(self).dims_ok(),
            old(self).neibs@.len() == old(self).size,
        ensures
            final(self).dims_ok(),
            final(self).neibs@.len() == final(self).size,
            final(self).rows_ok(final(self).size as int),
            final(self).nx == old(self).nx,
            final(self).ny == old(self).ny,
            final(self).nz == old(self).nz,
            final(self).px == old(self).px,
            final(self).py == old(self).py,
            final(self).pz == old(self).pz,
            final(self).nx_ib == old(self).nx_ib,
            final(self).ny_ib == old(self).ny_ib,
            final(self).nz_ib == old(self).nz_ib,
    {
        let size = self.size;
        let mut idx: usize = 0;
        while idx < size
            invariant
                idx <= size,
                size == self.size,
                self.dims_ok(),
                self.neibs@.len() == self.size,
                self.rows_ok(idx as int),
                self.nx == old(self).nx,
                self.ny == old(self).ny,
                self.nz == old(self).nz,
                self.px == old(self).px,
                self.py == old(self).py,
                self.pz == old(self).pz,
                self.nx_ib == old(self).nx_ib,
                self.ny_ib == old(self).ny_ib,
                self.nz_ib == old(self).nz_ib,
            decreases size - idx,
        {
            proof {
                lemma_coords_of_index(
                    self.nx as int,
                    self.ny as int,
                    self.nz as int,
                    idx as int,
                );
                assert(self.nz * self.ny > 0) by (nonlinear_arith)
                    requires
                        self.nz > 0,
                        self.ny > 0,
                ;
            }
            let (x, y, z) = self.idx_to_xyz(idx);
            let x = x as isize;
            let y = y as isize;
            let z = z as isize;
            let row = [
                self.site_at(x - 1, y, z),
                self.site_at(x + 1, y, z),
                self.site_at(x, y - 1, z),
                self.site_at(x, y + 1, z),
                self.site_at(x, y, z - 1),
                self.site_at(x, y, z + 1),
            ];
            let ghost before = *self;
            self.neibs.set(idx, row);
            proof {
                assert forall|i: int, dir: int| 0 <= i < idx + 1 && 0 <= dir < 6 implies (
                #[trigger] self.neibs@[i][dir]) as int == self.spec_neighbor(i, dir) by {
                    if i < idx {
                        assert(self.neibs@[i] == before.neibs@[i]);
                        assert(before.neibs@[i][dir] as int == before.spec_neighbor(i, dir));
                    } else {
                        assert(self.neibs@[i] == row);
                    }
                }
            }
            idx += 1;
        }
    }

    /// Neighbourhood is symmetric: a neighbour of `a` in slot `dir` is a site
    /// of the lattice and has `a` as its neighbour in the opposite slot.
    pub proof fn lemma_neighbor_symmetric(&self, a: int, dir: int)
        requires
            self.dims_ok(),
            0 <= a < self.size,
            0 <= dir < 6,
            self.spec_neighbor(a, dir) != NONE,
        ensures
            0 <= self.spec_neighbor(a, dir) < self.size,
            self.spec_neighbor(self.spec_neighbor(a, dir), opposite(dir)) == a,
    {
        let (nx, ny, nz) = (self.nx as int, self.ny as int, self.nz as int);
        lemma_coords_of_index(nx, ny, nz, a);
        let (x, y, z) = self.spec_coords(a);
        let (dx, dy, dz) = spec_offset(dir);
        let xp = spec_wrap(x + dx, nx, self.px);
        let yp = spec_wrap(y + dy, ny, self.py);
        let zp = spec_wrap(z + dz, nz, self.pz);
        if dx != 0 {
            lemma_wrap_back(x, nx, self.px, dx);
        }
        if dy != 0 {
            lemma_wrap_back(y, ny, self.py, dy);
        }
        if dz != 0 {
            lemma_wrap_back(z, nz, self.pz, dz);
        }
        let b = self.spec_neighbor(a, dir);
        assert(b == spec_index_of(ny, nz, xp, yp, zp));
        lemma_index_of_coords(nx, ny, nz, xp, yp, zp);
        assert(self.spec_coords(b) == (xp, yp, zp));
        let (ex, ey, ez) = spec_offset(opposite(dir));
        assert(ex == -dx && ey == -dy && ez == -dz);
        assert(spec_wrap(xp + ex, nx, self.px) == x);
        assert(spec_wrap(yp + ey, ny, self.py) == y);
        assert(spec_wrap(zp + ez, nz, self.pz) == z);
    }

    /// On a lattice that is periodic along all three axes every site has six
    /// neighbours: no slot is `NONE`.
    pub proof fn lemma_periodic_closed(&self, a: int, dir: int)
        requires
            self.dims_ok(),
            self.px && self.py && self.pz,
            0 <= a < self.size,
            0 <= dir < 6,
        ensures
            0 <= self.spec_neighbor(a, dir) < self.size,
            self.spec_neighbor(a, dir) != NONE,
    {
        let (nx, ny, nz) = (self.nx as int, self.ny as int, self.nz as int);
        lemma_coords_of_index(nx, ny, nz, a);
        let (x, y, z) = self.spec_coords(a);
        let (dx, dy, dz) = spec_offset(dir);
        lemma_mod_bound(x + dx, nx);
        lemma_mod_bound(y + dy, ny);
        lemma_mod_bound(z + dz, nz);
        let xp = spec_wrap(x + dx, nx, self.px);
        let yp = spec_wrap(y + dy, ny, self.py);
        let zp = spec_wrap(z + dz, nz, self.pz);
        lemma_index_of_coords(nx, ny, nz, xp, yp, zp);
    }

    /// The neighbour table of a complete lattice is symmetric and in range.
    pub proof fn lemma_table_ok(&self)
        requires
            self.wf(),
        ensures
            table_ok(self.neibs@, self.size as int),
    {
        reveal(table_ok);
        assert forall|a: int, dir: int|
            0 <= a < self.size && 0 <= dir < 6 && (#[trigger] self.neibs@[a][dir]) != NONE implies 
            self.neibs@[a][dir] < self.size && self.neibs@[self.neibs@[a][dir] as int][opposite(
                dir,
            )] == a by {
            assert(self.neibs@[a][dir] as int == self.spec_neighbor(a, dir));
            self.lemma_neighbor_symmetric(a, dir);
            let b = self.neibs@[a][dir] as int;
            assert(self.neibs@[b][opposite(dir)] as int == self.spec_neighbor(b, opposite(dir)));
        }
    }
}

/// A vector of `n` zeros.
fn zeros(n: usize) -> (v: Vec<usize>)
    ensures
        v@.len() == n,
        forall|i: int| 0 <= i < n ==> v@[i] == 0,
{
    let mut v: Vec<usize> = Vec::new();
    let mut i: usize = 0;
    while i < n
        invariant
            i <= n,
            v@.len() == i,
            forall|j: int| 0 <= j < i ==> v@[j] == 0,
        decreases n - i,
    {
        v.push(0);
        i += 1;
    }
    v
}

} // verus!
