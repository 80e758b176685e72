//! Laws of a run that only grows or only dissolves: a crystal that lies
//! inside an open lattice always has an interface, growth can only end at a
//! face, and dissolution can only end when the crystal is gone.

use vstd::prelude::*;
use crate::flip::lemma_flip_interface;
use crate::item::{accepted, cursor_event, lemma_count_bound, Item, Request, Status};
use crate::kernel::{
    count_crystal, interface_ok, lemma_back, lemma_count_update, lemma_table_len, neibs_ok,
    phases_ok, row_has, row_open, side_matches, CRYSTAL, GAS,
};
use crate::lattice::{lemma_coords_of_index, lemma_index_of_coords, opposite, Grid, NONE};

verus! {

/// No crystal site has an open neighbour slot: the crystal lies inside the
/// lattice.
pub open spec fn crystal_closed(state: Seq<u8>, neibs: Seq<[usize; 6]>) -> bool {
    forall|t: int| 0 <= t < state.len() && #[trigger] state[t] == CRYSTAL ==> !row_open(neibs[t]@)
}

/// Some crystal site has a gas neighbour: neither side of the interface is
/// empty.
pub open spec fn has_interface(state: Seq<u8>, neibs: Seq<[usize; 6]>) -> bool {
    exists|a: int, d: int|
        0 <= a < state.len() && 0 <= d < 6 && state[a] == CRYSTAL && (#[trigger] neibs[a]@[d])
            != NONE && state[neibs[a]@[d] as int] == GAS
}

/// A phase array without crystal sites counts none, and one that counts none
/// has none.
pub proof fn lemma_count_zero(state: Seq<u8>)
    ensures
        count_crystal(state) == 0 <==> forall|t: int|
            0 <= t < state.len() ==> #[trigger] state[t] != CRYSTAL,
    decreases state.len(),
{
    if state.len() > 0 {
        let rest = state.drop_last();
        lemma_count_zero(rest);
        if count_crystal(state) == 0 {
            assert forall|t: int| 0 <= t < state.len() implies #[trigger] state[t] != CRYSTAL by {
                if t < rest.len() {
                    assert(rest[t] == state[t]);
                }
            }
        }
        if forall|t: int| 0 <= t < state.len() ==> #[trigger] state[t] != CRYSTAL {
            assert forall|t: int| 0 <= t < rest.len() implies #[trigger] rest[t] != CRYSTAL by {
                assert(rest[t] == state[t]);
            }
            assert(state.last() == state[state.len() - 1]);
        }
    }
}

/// On a lattice that is open along x, a crystal that lies inside the
/// lattice has a crystal site with a gas neighbour: going from a crystal site
/// in the direction `+x` leads to gas before it leads to the face.
pub proof fn lemma_closed_crystal_meets_gas(grid: &Grid, state: Seq<u8>, c: int)
    requires
        grid.wf(),
        !grid.px,
        state.len() == grid.size,
        phases_ok(state),
        crystal_closed(state, grid.neibs@),
        0 <= c < grid.size,
        state[c] == CRYSTAL,
    ensures
        has_interface(state, grid.neibs@),
    decreases grid.nx - grid.spec_coords(c).0,
{
    let neibs = grid.neibs@;
    let (nx, ny, nz) = (grid.nx as int, grid.ny as int, grid.nz as int);
    lemma_coords_of_index(nx, ny, nz, c);
    let (x, y, z) = grid.spec_coords(c);
    let _ = grid.neibs@[c][1];
    assert(grid.neibs@[c][1] as int == grid.spec_neighbor(c, 1));
    let b = neibs[c]@[1];
    assert(!row_open(neibs[c]@));
    assert(b != NONE);
    assert(x + 1 < nx);
    lemma_index_of_coords(nx, ny, nz, x + 1, y, z);
    assert(grid.spec_coords(b as int).0 == x + 1);
    if state[b as int] == GAS {
        assert(neibs[c]@[1] != NONE && state[neibs[c]@[1] as int] == GAS);
    } else {
        assert(state[b as int] == GAS || state[b as int] == CRYSTAL);
        lemma_closed_crystal_meets_gas(grid, state, b as int);
    }
}

/// An index that holds an interface which is not empty has members on both
/// sides.
pub proof fn lemma_interface_has_members(
    state: Seq<u8>,
    neibs: Seq<[usize; 6]>,
    m: crate::frontier::FrontierModel,
)
    requires
        neibs_ok(neibs, state.len() as int),
        state.len() <= usize::MAX,
        m.wf(),
        m.n() == state.len(),
        interface_ok(state, neibs, m),
        has_interface(state, neibs),
    ensures
        m.tpas.len() > 0,
        m.tpbs.len() > 0,
{
    lemma_table_len(neibs, state.len() as int);
    let (a, d) = choose|a: int, d: int|
        0 <= a < state.len() && 0 <= d < 6 && state[a] == CRYSTAL && (#[trigger] neibs[a]@[d])
            != NONE && state[neibs[a]@[d] as int] == GAS;
    let n = state.len() as int;
    lemma_back(neibs, n, a, d);
    let b = neibs[a]@[d] as int;
    assert(neibs[a]@[d] != NONE && state[neibs[a]@[d] as int] == GAS);
    assert(row_has(state, neibs[a]@, GAS));
    assert(side_matches(state, neibs, m, a, GAS));
    assert(side_matches(state, neibs, m, a, CRYSTAL));
    assert(m.tag[a] == crate::frontier::TAG_CRYSTAL_ADJ);
    let back = opposite(d);
    assert(neibs[b]@[back] != NONE && state[neibs[b]@[back] as int] == CRYSTAL);
    assert(row_has(state, neibs[b]@, CRYSTAL));
    assert(side_matches(state, neibs, m, b, GAS));
    assert(m.tag[b] == crate::frontier::TAG_GAS_ADJ);
}

/// Growth can only end at a face. When the crystal of a replica lies inside
/// a lattice that is open along x, an accepted attachment adds one crystal
/// site; it ends the replica exactly when the site lies at an open face, and
/// never by an emptied interface; and if the replica lives on, its crystal
/// still lies inside the lattice.
pub proof fn lemma_growth_step(pre: &Item, post: &Item, grid: &Grid, request: Request)
    requires
        grid.wf(),
        !grid.px,
        pre.wf(grid.neibs@),
        post.wf(grid.neibs@),
        pre.cursor is Attach,
        accepted(pre, post, grid, request),
        crystal_closed(pre.state@, grid.neibs@),
    ensures
        post.simlog.n_cryst.val == pre.simlog.n_cryst.val + 1,
        post.status != Status::DeadFrontier,
        post.status == Status::DeadBoundary <==> row_open(
            grid.neibs@[cursor_event(pre.cursor).1]@,
        ),
        post.is_alive ==> crystal_closed(post.state@, grid.neibs@),
{
    let neibs = grid.neibs@;
    let g = cursor_event(pre.cursor).1;
    let n = pre.state@.len() as int;
    assert(pre.state@.len() == pre.state.len());
    lemma_table_len(neibs, n);
    assert(side_matches(pre.state@, neibs, pre.front@, g, GAS));
    lemma_flip_interface(pre.state@, neibs, pre.front@, g, CRYSTAL);
    if !row_open(neibs[g]@) {
        assert forall|t: int| 0 <= t < post.state@.len() && #[trigger] post.state@[t]
            == CRYSTAL implies !row_open(neibs[t]@) by {
            if t != g {
                assert(pre.state@[t] == CRYSTAL);
            }
        }
        lemma_closed_crystal_meets_gas(grid, post.state@, g);
        assert(post.state@.len() == post.state.len());
        lemma_interface_has_members(post.state@, neibs, post.front@);
    }
}

/// Dissolution can only end when the interface is gone. When the crystal of
/// a replica lies inside a lattice that is open along x, an accepted
/// detachment takes one crystal site away; it never meets the boundary; and
/// it ends the replica, by an emptied interface, exactly when it takes the
/// last crystal site.
pub proof fn lemma_dissolution_step(pre: &Item, post: &Item, grid: &Grid, request: Request)
    requires
        grid.wf(),
        !grid.px,
        pre.wf(grid.neibs@),
        post.wf(grid.neibs@),
        pre.cursor is Detach || pre.cursor is Ballistic,
        accepted(pre, post, grid, request),
        crystal_closed(pre.state@, grid.neibs@),
    ensures
        post.simlog.n_cryst.val == pre.simlog.n_cryst.val - 1,
        post.status != Status::DeadBoundary,
        crystal_closed(post.state@, grid.neibs@),
        post.status == Status::DeadFrontier <==> post.simlog.n_cryst.val == 0,
        post.status == Status::Alive <==> post.simlog.n_cryst.val > 0,
{
    let neibs = grid.neibs@;
    let g = cursor_event(pre.cursor).1;
    let n = pre.state@.len() as int;
    assert(pre.state@.len() == pre.state.len());
    lemma_table_len(neibs, n);
    assert(side_matches(pre.state@, neibs, pre.front@, g, GAS));
    assert(side_matches(pre.state@, neibs, pre.front@, g, CRYSTAL));
    assert(pre.state@[g] == CRYSTAL);
    assert(!row_open(neibs[g]@));
    lemma_flip_interface(pre.state@, neibs, pre.front@, g, GAS);
    assert forall|t: int| 0 <= t < post.state@.len() && #[trigger] post.state@[t]
        == CRYSTAL implies !row_open(neibs[t]@) by {
        assert(pre.state@[t] == CRYSTAL);
    }
    lemma_count_zero(post.state@);
    if post.simlog.n_cryst.val == 0 {
        if post.front@.tpbs.len() > 0 {
            let t = post.front@.tpbs[0];
            assert(post.front@.tag[t as int] == crate::frontier::TAG_CRYSTAL_ADJ);
            assert(post.state@[t as int] == CRYSTAL);
        }
    } else {
        let c = choose|c: int| 0 <= c < post.state@.len() && post.state@[c] == CRYSTAL;
        lemma_closed_crystal_meets_gas(grid, post.state@, c);
        assert(post.state@.len() == post.state.len());
        lemma_interface_has_members(post.state@, neibs, post.front@);
    }
}

/// A run of attachments: each phase array arises from the one before by
/// making one gas site with a crystal neighbour crystal, and none of these
/// sites lies at an open face.
pub open spec fn growth_chain(neibs: Seq<[usize; 6]>, states: Seq<Seq<u8>>, sites: Seq<int>) -> bool {
    &&& states.len() == sites.len() + 1
    &&& forall|i: int|
        0 <= i < sites.len() ==> {
            &&& 0 <= #[trigger] sites[i] < states[i].len()
            &&& states[i][sites[i]] == GAS
            &&& row_has(states[i], neibs[sites[i]]@, CRYSTAL)
            &&& !row_open(neibs[sites[i]]@)
            &&& states[i + 1] == states[i].update(sites[i], CRYSTAL)
        }
}

/// Growth reaches a face. From a crystal inside a lattice that is open along
/// x, a run of attachments away from the faces keeps the crystal inside the
/// lattice and both sides of the interface in being, so that the run can
/// always go on; and it adds one crystal site at a time, so that it is
/// shorter than the lattice has sites. A run of as many steps as the lattice
/// has sites, each with an accepted attachment, therefore attaches a site at
/// a face.
pub proof fn lemma_growth_reaches_face(
    grid: &Grid,
    states: Seq<Seq<u8>>,
    sites: Seq<int>,
    k: int,
)
    requires
        grid.wf(),
        !grid.px,
        growth_chain(grid.neibs@, states, sites),
        states[0].len() == grid.size,
        phases_ok(states[0]),
        crystal_closed(states[0], grid.neibs@),
        count_crystal(states[0]) >= 1,
        0 <= k <= sites.len(),
    ensures
        states[k].len() == grid.size,
        phases_ok(states[k]),
        crystal_closed(states[k], grid.neibs@),
        count_crystal(states[k]) == count_crystal(states[0]) + k,
        has_interface(states[k], grid.neibs@),
        k + count_crystal(states[0]) <= grid.size,
    decreases k,
{
    let neibs = grid.neibs@;
    if k > 0 {
        lemma_growth_reaches_face(grid, states, sites, k - 1);
        let before = states[k - 1];
        let s = sites[k - 1];
        let after = states[k];
        assert(after == before.update(s, CRYSTAL));
        lemma_count_update(before, s, CRYSTAL);
        assert forall|t: int| 0 <= t < after.len() implies #[trigger] after[t] == GAS || after[t]
            == CRYSTAL by {
            assert(before[t] == GAS || before[t] == CRYSTAL);
        }
        assert forall|t: int| 0 <= t < after.len() && #[trigger] after[t] == CRYSTAL implies 
            !row_open(neibs[t]@) by {
            if t != s {
                assert(before[t] == CRYSTAL);
            }
        }
        lemma_closed_crystal_meets_gas(grid, after, s);
    } else {
        lemma_count_zero(states[0]);
        let c = choose|c: int| 0 <= c < states[0].len() && states[0][c] == CRYSTAL;
        lemma_closed_crystal_meets_gas(grid, states[0], c);
    }
    lemma_count_bound(states[k]);
}

/// A run of detachments: each phase array arises from the one before by
/// making one crystal site with a gas neighbour gas.
pub open spec fn dissolution_chain(
    neibs: Seq<[usize; 6]>,
    states: Seq<Seq<u8>>,
    sites: Seq<int>,
) -> bool {
    &&& states.len() == sites.len() + 1
    &&& forall|i: int|
        0 <= i < sites.len() ==> {
            &&& 0 <= #[trigger] sites[i] < states[i].len()
            &&& states[i][sites[i]] == CRYSTAL
            &&& row_has(states[i], neibs[sites[i]]@, GAS)
            &&& states[i + 1] == states[i].update(sites[i], GAS)
        }
}

/// Dissolution ends when the crystal is gone. From a crystal inside a
/// lattice that is open along x, a run of detachments never takes a site at
/// an open face; it takes one crystal site at a time, so that it is no longer
/// than the crystal has sites; and the interface has both its sides as long
/// as a crystal site is left, and none when the last is taken.
pub proof fn lemma_dissolution_ends(
    grid: &Grid,
    states: Seq<Seq<u8>>,
    sites: Seq<int>,
    k: int,
)
    requires
        grid.wf(),
        !grid.px,
        dissolution_chain(grid.neibs@, states, sites),
        states[0].len() == grid.size,
        phases_ok(states[0]),
        crystal_closed(states[0], grid.neibs@),
        0 <= k <= sites.len(),
    ensures
        states[k].len() == grid.size,
        phases_ok(states[k]),
        crystal_closed(states[k], grid.neibs@),
        count_crystal(states[k]) + k == count_crystal(states[0]),
        k <= count_crystal(states[0]),
        k < sites.len() ==> !row_open(grid.neibs@[sites[k]]@),
        has_interface(states[k], grid.neibs@) <==> k < count_crystal(states[0]),
    decreases k,
{
    let neibs = grid.neibs@;
    if k > 0 {
        lemma_dissolution_ends(grid, states, sites, k - 1);
        let before = states[k - 1];
        let s = sites[k - 1];
        let after = states[k];
        assert(after == before.update(s, GAS));
        lemma_count_update(before, s, GAS);
        assert forall|t: int| 0 <= t < after.len() implies #[trigger] after[t] == GAS || after[t]
            == CRYSTAL by {
            assert(before[t] == GAS || before[t] == CRYSTAL);
        }
        assert forall|t: int| 0 <= t < after.len() && #[trigger] after[t] == CRYSTAL implies 
            !row_open(neibs[t]@) by {
            assert(before[t] == CRYSTAL);
        }
    }
    let now = states[k];
    lemma_count_zero(now);
    if count_crystal(now) > 0 {
        let c = choose|c: int| 0 <= c < now.len() && now[c] == CRYSTAL;
        lemma_closed_crystal_meets_gas(grid, now, c);
    }
    if k < sites.len() {
        assert(now[sites[k]] == CRYSTAL);
    }
}

} // verus!
