//! Building the interface index from a phase array in one scan.

use vstd::prelude::*;
use crate::flip::lemma_add_tags;
use crate::frontier::{Frontier, FrontierModel, TAG_CRYSTAL_ADJ, TAG_GAS_ADJ, TAG_NONE};
use crate::kernel::{
    count_crystal, interface_ok, lemma_back, lemma_rows_in_range, neibs_ok, phases_ok,
    replica_ok, row_has, row_in_range, side_matches, tags_sound, CRYSTAL, GAS,
};
use crate::lattice::{opposite, NONE};

verus! {

/// The scan at one neighbour of a crystal site: a gas neighbour joins
/// `GasAdj`.
pub open spec fn scan_slot(m: FrontierModel, state: Seq<u8>, nb: usize) -> FrontierModel {
    if nb != NONE && state[nb as int] == GAS {
        m.add_a(nb as int)
    } else {
        m
    }
}

/// The scan at the neighbours in slots `0..d` of a crystal site, in slot
/// order.
pub open spec fn scan_row(m: FrontierModel, state: Seq<u8>, row: Seq<usize>, d: int) -> FrontierModel
    decreases d,
{
    if d <= 0 {
        m
    } else {
        scan_slot(scan_row(m, state, row, d - 1), state, row[d - 1])
    }
}

/// The scan at site `i`: nothing for a site that is not crystal; for a
/// crystal site its gas neighbours join `GasAdj`, and the site joins
/// `CrystalAdj` when it has one.
pub open spec fn scan_site(
    m: FrontierModel,
    state: Seq<u8>,
    neibs: Seq<[usize; 6]>,
    i: int,
) -> FrontierModel {
    if state[i] == CRYSTAL {
        let swept = scan_row(m, state, neibs[i]@, 6);
        if row_has(state, neibs[i]@, GAS) {
            swept.add_b(i)
        } else {
            swept
        }
    } else {
        m
    }
}

/// The scan of sites `0..i`, in index order.
pub open spec fn scan_upto(
    m: FrontierModel,
    state: Seq<u8>,
    neibs: Seq<[usize; 6]>,
    i: int,
) -> FrontierModel
    decreases i,
{
    if i <= 0 {
        m
    } else {
        scan_site(scan_upto(m, state, neibs, i - 1), state, neibs, i - 1)
    }
}

/// Some in-domain neighbour in `row` is a crystal site below `bound`.
pub open spec fn crystal_below(state: Seq<u8>, row: Seq<usize>, bound: int) -> bool {
    exists|d: int|
        0 <= d < 6 && #[trigger] row[d] != NONE && row[d] < bound && state[row[d] as int]
            == CRYSTAL
}

/// Site `g` stands in one of the slots `0..d` of `row`.
pub open spec fn listed(row: Seq<usize>, d: int, g: int) -> bool {
    exists|j: int| 0 <= j < d && #[trigger] row[j] == g
}

/// What holds of site `g` while crystal site `i` is scanned, slots `0..d`
/// being done; with `d == 0` it is what holds when sites `0..i` are done.
pub open spec fn scan_at(
    state: Seq<u8>,
    neibs: Seq<[usize; 6]>,
    tag: Seq<u8>,
    i: int,
    d: int,
    g: int,
) -> bool {
    &&& tag[g] == TAG_GAS_ADJ <==> state[g] == GAS && (crystal_below(state, neibs[g]@, i) || listed(
        neibs[i]@,
        d,
        g,
    ))
    &&& tag[g] == TAG_CRYSTAL_ADJ <==> g < i && state[g] == CRYSTAL && row_has(
        state,
        neibs[g]@,
        GAS,
    )
}

/// `scan_at` of every site.
pub open spec fn scan_inv(
    state: Seq<u8>,
    neibs: Seq<[usize; 6]>,
    tag: Seq<u8>,
    i: int,
    d: int,
) -> bool {
    forall|g: int| 0 <= g < state.len() ==> #[trigger] scan_at(state, neibs, tag, i, d, g)
}

/// The scan of one more slot of crystal site `i` keeps what holds of every
/// site.
proof fn lemma_scan_slot(
    state: Seq<u8>,
    neibs: Seq<[usize; 6]>,
    m: FrontierModel,
    i: int,
    d: int,
)
    requires
        neibs_ok(neibs, state.len() as int),
        state.len() <= usize::MAX,
        m.n() == state.len(),
        0 <= i < state.len(),
        state[i] == CRYSTAL,
        0 <= d < 6,
        scan_inv(state, neibs, m.tag, i, d),
    ensures
        scan_inv(state, neibs, scan_slot(m, state, neibs[i]@[d]).tag, i, d + 1),
        neibs[i]@[d] != NONE && state[neibs[i]@[d] as int] == GAS ==> m.tag[neibs[i]@[d] as int]
            != TAG_CRYSTAL_ADJ,
{
    let n = state.len() as int;
    let row = neibs[i]@;
    let nb = row[d];
    let m2 = scan_slot(m, state, nb);
    lemma_rows_in_range(neibs, n, i);
    if nb != NONE {
        assert(scan_at(state, neibs, m.tag, i, d, nb as int));
        if state[nb as int] == GAS {
            lemma_add_tags(m, TAG_GAS_ADJ, nb as int);
        }
    }
    assert forall|g: int| 0 <= g < n implies #[trigger] scan_at(
        state,
        neibs,
        m2.tag,
        i,
        d + 1,
        g,
    ) by {
        assert(scan_at(state, neibs, m.tag, i, d, g));
        if listed(row, d, g) {
            let j = choose|j: int| 0 <= j < d && #[trigger] row[j] == g;
            assert(0 <= j < d + 1 && row[j] == g);
        }
        if listed(row, d + 1, g) && !listed(row, d, g) {
            let j = choose|j: int| 0 <= j < d + 1 && #[trigger] row[j] == g;
            assert(j == d);
        }
        if nb != NONE && g == nb {
            assert(row[d] == g);
            assert(listed(row, d + 1, g));
        }
    }
}

/// When all six slots of crystal site `i` are scanned and the site has
/// joined `CrystalAdj` if it has a gas neighbour, sites `0..i + 1` are done.
proof fn lemma_scan_site_done(
    state: Seq<u8>,
    neibs: Seq<[usize; 6]>,
    tag: Seq<u8>,
    i: int,
)
    requires
        neibs_ok(neibs, state.len() as int),
        state.len() <= usize::MAX,
        tag.len() == state.len(),
        0 <= i < state.len(),
        state[i] == CRYSTAL,
        scan_inv(state, neibs, tag, i, 6),
    ensures
        scan_inv(
            state,
            neibs,
            if row_has(state, neibs[i]@, GAS) {
                tag.update(i, TAG_CRYSTAL_ADJ)
            } else {
                tag
            },
            i + 1,
            0,
        ),
        tag[i] != TAG_GAS_ADJ,
{
    let n = state.len() as int;
    let row = neibs[i]@;
    let tag2 = if row_has(state, row, GAS) {
        tag.update(i, TAG_CRYSTAL_ADJ)
    } else {
        tag
    };
    assert(scan_at(state, neibs, tag, i, 6, i));
    lemma_rows_in_range(neibs, n, i);
    assert forall|g: int| 0 <= g < n implies #[trigger] scan_at(state, neibs, tag2, i + 1, 0, g) by {
        assert(scan_at(state, neibs, tag, i, 6, g));
        let grow = neibs[g]@;
        lemma_rows_in_range(neibs, n, g);
        assert(!listed(neibs[i + 1]@, 0, g));
        if crystal_below(state, grow, i) {
            let d = choose|d: int|
                0 <= d < 6 && #[trigger] grow[d] != NONE && grow[d] < i && state[grow[d] as int]
                    == CRYSTAL;
            assert(grow[d] != NONE && grow[d] < i + 1 && state[grow[d] as int] == CRYSTAL);
        }
        if listed(row, 6, g) {
            let j = choose|j: int| 0 <= j < 6 && #[trigger] row[j] == g;
            lemma_back(neibs, n, i, j);
            assert(grow[opposite(j)] != NONE && grow[opposite(j)] < i + 1 && state[grow[opposite(
                j,
            )] as int] == CRYSTAL);
            assert(crystal_below(state, grow, i + 1));
        }
        if crystal_below(state, grow, i + 1) && !crystal_below(state, grow, i) {
            let d = choose|d: int|
                0 <= d < 6 && #[trigger] grow[d] != NONE && grow[d] < i + 1 && state[grow[d] as int]
                    == CRYSTAL;
            assert(grow[d] == i);
            lemma_back(neibs, n, g, d);
            assert(row[opposite(d)] == g);
            assert(listed(row, 6, g));
        }
    }
}

/// A site that is not crystal leaves everything as it is.
proof fn lemma_scan_site_skipped(state: Seq<u8>, neibs: Seq<[usize; 6]>, tag: Seq<u8>, i: int)
    requires
        neibs_ok(neibs, state.len() as int),
        state.len() <= usize::MAX,
        tag.len() == state.len(),
        0 <= i < state.len(),
        state[i] != CRYSTAL,
        scan_inv(state, neibs, tag, i, 0),
    ensures
        scan_inv(state, neibs, tag, i + 1, 0),
{
    let n = state.len() as int;
    assert forall|g: int| 0 <= g < n implies #[trigger] scan_at(state, neibs, tag, i + 1, 0, g) by {
        assert(scan_at(state, neibs, tag, i, 0, g));
        let grow = neibs[g]@;
        lemma_rows_in_range(neibs, n, g);
        assert(!listed(neibs[i + 1]@, 0, g));
        assert(!listed(neibs[i]@, 0, g));
        if crystal_below(state, grow, i) {
            let d = choose|d: int|
                0 <= d < 6 && #[trigger] grow[d] != NONE && grow[d] < i && state[grow[d] as int]
                    == CRYSTAL;
            assert(grow[d] != NONE && grow[d] < i + 1 && state[grow[d] as int] == CRYSTAL);
        }
        if crystal_below(state, grow, i + 1) {
            let d = choose|d: int|
                0 <= d < 6 && #[trigger] grow[d] != NONE && grow[d] < i + 1 && state[grow[d] as int]
                    == CRYSTAL;
            assert(grow[d] != NONE && grow[d] < i && state[grow[d] as int] == CRYSTAL);
        }
    }
}

/// When every site is scanned the index holds the interface.
proof fn lemma_scan_complete(state: Seq<u8>, neibs: Seq<[usize; 6]>, m: FrontierModel)
    requires
        neibs_ok(neibs, state.len() as int),
        state.len() <= usize::MAX,
        m.n() == state.len(),
        scan_inv(state, neibs, m.tag, state.len() as int, 0),
    ensures
        interface_ok(state, neibs, m),
        tags_sound(state, m),
{
    let n = state.len() as int;
    assert forall|g: int| 0 <= g < n implies #[trigger] side_matches(state, neibs, m, g, GAS)
        && side_matches(state, neibs, m, g, CRYSTAL) by {
        assert(scan_at(state, neibs, m.tag, n, 0, g));
        let grow = neibs[g]@;
        lemma_rows_in_range(neibs, n, g);
        assert(!listed(neibs[n]@, 0, g));
        if crystal_below(state, grow, n) {
            let d = choose|d: int|
                0 <= d < 6 && #[trigger] grow[d] != NONE && grow[d] < n && state[grow[d] as int]
                    == CRYSTAL;
            assert(grow[d] != NONE && state[grow[d] as int] == CRYSTAL);
        }
        if row_has(state, grow, CRYSTAL) {
            let d = choose|d: int|
                0 <= d < 6 && #[trigger] grow[d] != NONE && state[grow[d] as int] == CRYSTAL;
            assert(grow[d] != NONE && grow[d] < n && state[grow[d] as int] == CRYSTAL);
        }
    }
    assert forall|g: int| 0 <= g < n implies (#[trigger] m.tag[g] == TAG_GAS_ADJ ==> state[g]
        == GAS) && (m.tag[g] == TAG_CRYSTAL_ADJ ==> state[g] == CRYSTAL) by {
        assert(scan_at(state, neibs, m.tag, n, 0, g));
    }
}

/// Before any site is scanned, an index without members holds what the scan
/// keeps.
proof fn lemma_scan_start(state: Seq<u8>, neibs: Seq<[usize; 6]>)
    requires
        neibs_ok(neibs, state.len() as int),
    ensures
        scan_inv(state, neibs, FrontierModel::empty(state.len()).tag, 0, 0),
{
    let n = state.len() as int;
    let tag = FrontierModel::empty(state.len()).tag;
    assert forall|g: int| 0 <= g < n implies #[trigger] scan_at(state, neibs, tag, 0, 0, g) by {
        assert(tag[g] == TAG_NONE);
        assert(!listed(neibs[0]@, 0, g));
        assert(!crystal_below(state, neibs[g]@, 0));
    }
}

/// The number of crystal sites among the first `i + 1` is that among the
/// first `i`, and one more when site `i` is crystal.
proof fn lemma_count_take(state: Seq<u8>, i: int)
    requires
        0 <= i < state.len(),
    ensures
        count_crystal(state.take(i + 1)) == count_crystal(state.take(i)) + (if state[i]
            == CRYSTAL {
            1nat
        } else {
            0nat
        }),
        count_crystal(state.take(i)) <= i,
    decreases i,
{
    assert(state.take(i + 1).drop_last() =~= state.take(i));
    if i > 0 {
        lemma_count_take(state, i - 1);
    }
}

/// Fills an index without members from a phase array: every crystal site is
/// visited in index order, its gas neighbours join `GasAdj` in slot order, and
/// the site joins `CrystalAdj` when it has a gas neighbour. Returns the number
/// of crystal sites.
#[inline(always)]
pub fn rebuild_front(states: &[u8], neibs: &[[usize; 6]], front: &mut Frontier) -> (cluster_size:
    usize)
    requires
        neibs_ok(neibs@, states@.len() as int),
        old(front).wf(),
        old(front)@ == FrontierModel::empty(states@.len()),
    ensures
        cluster_size == count_crystal(states@),
        final(front)@ == scan_upto(old(front)@, states@, neibs@, states@.len() as int),
        final(front).wf(),
        final(front)@.n() == states@.len(),
        interface_ok(states@, neibs@, final(front)@),
        tags_sound(states@, final(front)@),
        phases_ok(states@) ==> replica_ok(states@, neibs@, final(front)),
{
    let ghost st = states@;
    let ghost m0 = front@;
    let ghost n = st.len() as int;
    let len = states.len();
    let mut cluster_size: usize = 0;
    let mut i: usize = 0;
    proof {
        lemma_scan_start(st, neibs@);
        assert(st.take(0) =~= Seq::<u8>::empty());
    }
    while i < len
        invariant
            i <= len,
            len == n,
            n == st.len(),
            st == states@,
            neibs_ok(neibs@, n),
            front.wf(),
            front@.n() == n,
            front@ == scan_upto(m0, st, neibs@, i as int),
            scan_inv(st, neibs@, front@.tag, i as int, 0),
            cluster_size == count_crystal(st.take(i as int)),
        decreases len - i,
    {
        proof {
            lemma_count_take(st, i as int);
            lemma_rows_in_range(neibs@, n, i as int);
        }
        let state = states[i];
        if state == 1 {
            cluster_size += 1;
            let row: &[usize; 6] = &neibs[i];
            let ghost before = front@;
            let mut has_vacancy_neighbor = false;
            let mut d: usize = 0;
            while d < 6
                invariant
                    d <= 6,
                    i < len,
                    len == n,
                    n == st.len(),
                    st == states@,
                    st[i as int] == CRYSTAL,
                    neibs_ok(neibs@, n),
                    row@ == neibs@[i as int]@,
                    row_in_range(row@, n),
                    front.wf(),
                    front@.n() == n,
                    front@ == scan_row(before, st, row@, d as int),
                    scan_inv(st, neibs@, front@.tag, i as int, d as int),
                    has_vacancy_neighbor == exists|j: int|
                        0 <= j < d && #[trigger] row@[j] != NONE && st[row@[j] as int] == GAS,
                decreases 6 - d,
            {
                let neib_idx = row[d];
                proof {
                    lemma_scan_slot(st, neibs@, front@, i as int, d as int);
                }
                if neib_idx != usize::MAX {
                    if states[neib_idx] == 0 {
                        has_vacancy_neighbor = true;
                        front.tpa_add(neib_idx);
                    }
                }
                d += 1;
            }
            proof {
                lemma_scan_site_done(st, neibs@, front@.tag, i as int);
                assert(has_vacancy_neighbor == row_has(st, row@, GAS));
            }
            if has_vacancy_neighbor {
                let ghost swept = front@;
                front.tpb_add(i);
                proof {
                    lemma_add_tags(swept, TAG_CRYSTAL_ADJ, i as int);
                }
            }
        } else {
            proof {
                lemma_scan_site_skipped(st, neibs@, front@.tag, i as int);
            }
        }
        i += 1;
    }
    proof {
        assert(st.take(n) =~= st);
        lemma_scan_complete(st, neibs@, front@);
    }
    cluster_size
}

/// Two consistent indexes that hold the interface of one phase array have
/// the same members: the index that a scan builds and the index that event
/// by event repair keeps agree as sets.
pub proof fn lemma_interface_unique(
    state: Seq<u8>,
    neibs: Seq<[usize; 6]>,
    m1: FrontierModel,
    m2: FrontierModel,
)
    requires
        m1.wf(),
        m2.wf(),
        m1.n() == state.len(),
        m2.n() == state.len(),
        interface_ok(state, neibs, m1),
        interface_ok(state, neibs, m2),
    ensures
        m1.tag == m2.tag,
        m1.gas_adj() == m2.gas_adj(),
        m1.crystal_adj() == m2.crystal_adj(),
{
    assert forall|g: int| 0 <= g < state.len() implies m1.tag[g] == m2.tag[g] by {
        assert(side_matches(state, neibs, m1, g, GAS));
        assert(side_matches(state, neibs, m1, g, CRYSTAL));
        assert(side_matches(state, neibs, m2, g, GAS));
        assert(side_matches(state, neibs, m2, g, CRYSTAL));
        assert(m1.tag[g] == TAG_NONE || m1.tag[g] == TAG_GAS_ADJ || m1.tag[g] == TAG_CRYSTAL_ADJ);
        assert(m2.tag[g] == TAG_NONE || m2.tag[g] == TAG_GAS_ADJ || m2.tag[g] == TAG_CRYSTAL_ADJ);
    }
    assert(m1.tag =~= m2.tag);
    assert(m1.gas_adj() =~= m2.gas_adj());
    assert(m1.crystal_adj() =~= m2.crystal_adj());
}

} // verus!
