//! The accepted event: one site changes phase, and the interface index is
//! repaired at the site and at its six neighbours.

use vstd::prelude::*;
use crate::frontier::{Frontier, FrontierModel, TAG_CRYSTAL_ADJ, TAG_GAS_ADJ, TAG_NONE};
use crate::kernel::{
    adj_tag, any_neighbor_is, compute_neighbor_sums, count_crystal, interface_ok, lemma_back,
    lemma_count_update, lemma_rows_in_range, lemma_total_bounds, lemma_total_extremes, neibs_ok,
    other, phases_ok, replica_ok, row_has, row_in_range, row_open, side_matches, slot_crystal,
    tags_sound, total_crystals, CRYSTAL, GAS,
};
use crate::lattice::{opposite, NONE};

verus! {

/// The index after `x` is added to the set with tag `kind`.
pub open spec fn model_add(m: FrontierModel, kind: u8, x: int) -> FrontierModel {
    if kind == TAG_GAS_ADJ {
        m.add_a(x)
    } else {
        m.add_b(x)
    }
}

/// The index after `x` is removed from the set with tag `kind`.
pub open spec fn model_rem(m: FrontierModel, kind: u8, x: int) -> FrontierModel {
    if kind == TAG_GAS_ADJ {
        m.rem_a(x)
    } else {
        m.rem_b(x)
    }
}

/// Whether a site that has just taken phase `to` joins the set of its new
/// phase: a new crystal site when fewer than six of its neighbours were
/// crystal, a new gas site when at least one was.
pub open spec fn self_joins(before: Seq<u8>, row: Seq<usize>, to: u8) -> bool {
    if to == CRYSTAL {
        total_crystals(before, row) < 6
    } else {
        total_crystals(before, row) > 0
    }
}

/// The repair of the index at one neighbour `nb` of a site that has taken
/// phase `to`: a neighbour of the other phase joins its set, a neighbour of
/// the same phase leaves its set when no neighbour of the other phase is left
/// to it.
pub open spec fn patch_slot(
    m: FrontierModel,
    state: Seq<u8>,
    neibs: Seq<[usize; 6]>,
    nb: usize,
    to: u8,
) -> FrontierModel {
    if nb == NONE {
        m
    } else if state[nb as int] == other(to) {
        model_add(m, adj_tag(other(to)), nb as int)
    } else if state[nb as int] == to && !row_has(state, neibs[nb as int]@, other(to)) {
        model_rem(m, adj_tag(to), nb as int)
    } else {
        m
    }
}

/// The repair at the neighbours of `s` in slots `0..k`, in slot order.
pub open spec fn patch_upto(
    m: FrontierModel,
    state: Seq<u8>,
    neibs: Seq<[usize; 6]>,
    s: int,
    to: u8,
    k: int,
) -> FrontierModel
    decreases k,
{
    if k <= 0 {
        m
    } else {
        patch_slot(patch_upto(m, state, neibs, s, to, k - 1), state, neibs, neibs[s]@[k - 1], to)
    }
}

/// The index after site `s` of the phase array `before` has taken phase
/// `to`: `s` leaves the set of its old phase, joins the set of its new phase
/// by the neighbour count, and its six neighbours are repaired in slot
/// order.
pub open spec fn flip_model(
    m: FrontierModel,
    before: Seq<u8>,
    neibs: Seq<[usize; 6]>,
    s: int,
    to: u8,
) -> FrontierModel {
    let left = model_rem(m, adj_tag(other(to)), s);
    let joined = if self_joins(before, neibs[s]@, to) {
        model_add(left, adj_tag(to), s)
    } else {
        left
    };
    patch_upto(joined, before.update(s, to), neibs, s, to, 6)
}

/// Site `g` is the neighbour of the flipped site in some slot from `k` on.
pub open spec fn pending(row: Seq<usize>, k: int, g: int) -> bool {
    exists|j: int| k <= j < 6 && #[trigger] row[j] == g
}

/// The flipped site `s` is not its own neighbour in any slot below `k`.
pub open spec fn unseen(row: Seq<usize>, k: int, s: int) -> bool {
    forall|j: int| 0 <= j < k ==> #[trigger] row[j] != s
}

/// What holds of site `g` while the neighbours of the flipped site `s` are
/// repaired, slots `0..k` being done.
pub open spec fn repair_at(
    state: Seq<u8>,
    neibs: Seq<[usize; 6]>,
    tag: Seq<u8>,
    s: int,
    to: u8,
    k: int,
    joins: bool,
    g: int,
) -> bool {
    let from = other(to);
    let ta = adj_tag(from);
    let tb = adj_tag(to);
    let row = neibs[s]@;
    &&& tag[g] == ta ==> state[g] == from && row_has(state, neibs[g]@, to)
    &&& state[g] == from && row_has(state, neibs[g]@, to) ==> tag[g] == ta || pending(row, k, g)
    &&& state[g] == to && row_has(state, neibs[g]@, from) ==> tag[g] == tb
    &&& tag[g] == tb ==> state[g] == to
    &&& tag[g] == tb && !row_has(state, neibs[g]@, from) ==> pending(row, k, g) || (g == s
        && unseen(row, k, s) && joins)
}

/// `repair_at` of every site.
pub open spec fn repair_inv(
    state: Seq<u8>,
    neibs: Seq<[usize; 6]>,
    tag: Seq<u8>,
    s: int,
    to: u8,
    k: int,
    joins: bool,
) -> bool {
    forall|g: int|
        0 <= g < state.len() ==> #[trigger] repair_at(state, neibs, tag, s, to, k, joins, g)
}

/// Adding a site to a set gives the site the tag of the set and changes no
/// other tag.
pub proof fn lemma_add_tags(m: FrontierModel, kind: u8, x: int)
    requires
        0 <= x < m.n(),
        kind == TAG_GAS_ADJ || kind == TAG_CRYSTAL_ADJ,
    ensures
        model_add(m, kind, x).tag == m.tag.update(x, kind),
{
    assert(model_add(m, kind, x).tag =~= m.tag.update(x, kind));
}

/// Removing a site from a set clears the tag of a member and changes no
/// other tag.
pub proof fn lemma_rem_tags(m: FrontierModel, kind: u8, x: int)
    requires
        0 <= x < m.n(),
        kind == TAG_GAS_ADJ || kind == TAG_CRYSTAL_ADJ,
    ensures
        model_rem(m, kind, x).tag == (if m.tag[x] == kind {
            m.tag.update(x, TAG_NONE)
        } else {
            m.tag
        }),
{
    assert(model_rem(m, kind, x).tag =~= (if m.tag[x] == kind {
        m.tag.update(x, TAG_NONE)
    } else {
        m.tag
    }));
}

/// A neighbour of phase `phase` outlives the flip of a site that did not have
/// that phase.
proof fn lemma_row_has_kept(st0: Seq<u8>, s: int, to: u8, row: Seq<usize>, phase: u8)
    requires
        0 <= s < st0.len(),
        row_in_range(row, st0.len() as int),
        row_has(st0, row, phase),
        st0[s] != phase,
    ensures
        row_has(st0.update(s, to), row, phase),
{
    let d = choose|d: int| 0 <= d < 6 && #[trigger] row[d] != NONE && st0[row[d] as int] == phase;
    assert(row[d] != NONE && st0.update(s, to)[row[d] as int] == phase);
}

/// A neighbour of a phase other than the new one was there before the flip.
proof fn lemma_row_has_was(st0: Seq<u8>, s: int, to: u8, row: Seq<usize>, phase: u8)
    requires
        0 <= s < st0.len(),
        row_in_range(row, st0.len() as int),
        row_has(st0.update(s, to), row, phase),
        to != phase,
    ensures
        row_has(st0, row, phase),
{
    let st1 = st0.update(s, to);
    let d = choose|d: int| 0 <= d < 6 && #[trigger] row[d] != NONE && st1[row[d] as int] == phase;
    assert(row[d] != NONE && st0[row[d] as int] == phase);
}

/// A row that gains a neighbour of the new phase, or loses its last
/// neighbour of the old phase, holds the flipped site.
proof fn lemma_row_change_names_site(
    st0: Seq<u8>,
    s: int,
    to: u8,
    row: Seq<usize>,
    phase: u8,
) -> (d: int)
    requires
        0 <= s < st0.len(),
        row_in_range(row, st0.len() as int),
        row_has(st0, row, phase) != row_has(st0.update(s, to), row, phase),
    ensures
        0 <= d < 6,
        row[d] == s,
{
    let st1 = st0.update(s, to);
    if row_has(st0, row, phase) {
        let d = choose|d: int|
            0 <= d < 6 && #[trigger] row[d] != NONE && st0[row[d] as int] == phase;
        if row[d] != s {
            assert(row[d] != NONE && st1[row[d] as int] == phase);
        }
        d
    } else {
        let d = choose|d: int|
            0 <= d < 6 && #[trigger] row[d] != NONE && st1[row[d] as int] == phase;
        if row[d] != s {
            assert(row[d] != NONE && st0[row[d] as int] == phase);
        }
        d
    }
}

/// The state of the repair before any neighbour is visited.
pub proof fn lemma_repair_init(
    st0: Seq<u8>,
    neibs: Seq<[usize; 6]>,
    m0: FrontierModel,
    s: int,
    to: u8,
)
    requires
        to == GAS || to == CRYSTAL,
        neibs_ok(neibs, st0.len() as int),
        st0.len() <= usize::MAX,
        m0.n() == st0.len(),
        phases_ok(st0),
        interface_ok(st0, neibs, m0),
        0 <= s < st0.len(),
        m0.tag[s] == adj_tag(other(to)),
    ensures
        repair_inv(
            st0.update(s, to),
            neibs,
            m0.tag.update(
                s,
                if self_joins(st0, neibs[s]@, to) {
                    adj_tag(to)
                } else {
                    TAG_NONE
                },
            ),
            s,
            to,
            0,
            self_joins(st0, neibs[s]@, to),
        ),
{
    let n = st0.len() as int;
    let st1 = st0.update(s, to);
    let from = other(to);
    let ta = adj_tag(from);
    let tb = adj_tag(to);
    let row = neibs[s]@;
    let joins = self_joins(st0, row, to);
    let tag2 = m0.tag.update(s, if joins {
        tb
    } else {
        TAG_NONE
    });
    assert(side_matches(st0, neibs, m0, s, GAS) && side_matches(st0, neibs, m0, s, CRYSTAL));
    assert(st0[s] == from);
    lemma_rows_in_range(neibs, n, s);
    assert forall|g: int| 0 <= g < n implies #[trigger] repair_at(
        st1,
        neibs,
        tag2,
        s,
        to,
        0,
        joins,
        g,
    ) by {
        assert(side_matches(st0, neibs, m0, g, GAS));
        assert(side_matches(st0, neibs, m0, g, CRYSTAL));
        lemma_rows_in_range(neibs, n, g);
        let grow = neibs[g]@;
        assert(side_matches(st0, neibs, m0, g, from) && side_matches(st0, neibs, m0, g, to));
        // members of the gaining set stay right
        if tag2[g] == ta {
            assert(g != s);
            lemma_row_has_kept(st0, s, to, grow, to);
        }
        // a site of the old phase next to the new phase
        if st1[g] == from && row_has(st1, grow, to) {
            assert(g != s);
            if row_has(st0, grow, to) {
                assert(tag2[g] == ta);
            } else {
                let d = lemma_row_change_names_site(st0, s, to, grow, to);
                lemma_back(neibs, n, g, d);
                assert(row[opposite(d)] == g);
                assert(pending(row, 0, g));
            }
        }
        // a site of the new phase next to the old phase
        if st1[g] == to && row_has(st1, grow, from) {
            lemma_row_has_was(st0, s, to, grow, from);
            if g == s {
                let d = choose|d: int|
                    0 <= d < 6 && #[trigger] row[d] != NONE && st0[row[d] as int] == from;
                lemma_total_bounds(st0, row, d);
                assert(slot_crystal(st0, row, d) == (if from == CRYSTAL {
                    1int
                } else {
                    0int
                }));
                assert(joins);
            }
        }
        // members of the losing set that have lost their last neighbour
        if tag2[g] == tb && !row_has(st1, grow, from) {
            if g != s {
                assert(m0.tag[g] == tb);
                assert(row_has(st0, grow, from));
                let d = lemma_row_change_names_site(st0, s, to, grow, from);
                lemma_back(neibs, n, g, d);
                assert(row[opposite(d)] == g);
                assert(pending(row, 0, g));
            } else {
                assert(unseen(row, 0, s));
            }
        }
    }
}

/// A neighbour that is still to be visited after slot `k` is still to be
/// visited from slot `k + 1` on unless slot `k` holds it.
proof fn lemma_pending_next(row: Seq<usize>, k: int, g: int)
    requires
        pending(row, k, g),
        row[k] != g,
    ensures
        pending(row, k + 1, g),
{
    let j = choose|j: int| k <= j < 6 && #[trigger] row[j] == g;
    assert(k + 1 <= j < 6 && row[j] == g);
}

/// What a visit to slot `k` keeps when it leaves the tags as they are: the
/// slot is `NONE`, or holds a site of the new phase that still has a
/// neighbour of the old phase.
proof fn lemma_step_same(
    st1: Seq<u8>,
    neibs: Seq<[usize; 6]>,
    tag: Seq<u8>,
    s: int,
    to: u8,
    k: int,
    joins: bool,
)
    requires
        to == GAS || to == CRYSTAL,
        neibs_ok(neibs, st1.len() as int),
        st1.len() <= usize::MAX,
        tag.len() == st1.len(),
        0 <= s < st1.len(),
        0 <= k < 6,
        repair_inv(st1, neibs, tag, s, to, k, joins),
        neibs[s]@[k] == NONE || (st1[neibs[s]@[k] as int] == to && row_has(
            st1,
            neibs[neibs[s]@[k] as int]@,
            other(to),
        )),
    ensures
        repair_inv(st1, neibs, tag, s, to, k + 1, joins),
{
    let n = st1.len() as int;
    let from = other(to);
    let row = neibs[s]@;
    let nb = row[k];
    assert forall|g: int| 0 <= g < n implies #[trigger] repair_at(
        st1,
        neibs,
        tag,
        s,
        to,
        k + 1,
        joins,
        g,
    ) by {
        assert(repair_at(st1, neibs, tag, s, to, k, joins, g));
        if pending(row, k, g) && nb != g {
            lemma_pending_next(row, k, g);
        }
        if g == s && unseen(row, k, s) && nb != s {
            assert(unseen(row, k + 1, s));
        }
    }
}

/// What a visit to slot `k` keeps when the slot holds a site of the old
/// phase, which joins its set.
proof fn lemma_step_add(
    st1: Seq<u8>,
    neibs: Seq<[usize; 6]>,
    tag: Seq<u8>,
    s: int,
    to: u8,
    k: int,
    joins: bool,
)
    requires
        to == GAS || to == CRYSTAL,
        neibs_ok(neibs, st1.len() as int),
        st1.len() <= usize::MAX,
        tag.len() == st1.len(),
        0 <= s < st1.len(),
        st1[s] == to,
        0 <= k < 6,
        repair_inv(st1, neibs, tag, s, to, k, joins),
        neibs[s]@[k] != NONE,
        st1[neibs[s]@[k] as int] == other(to),
    ensures
        tag[neibs[s]@[k] as int] != adj_tag(to),
        repair_inv(
            st1,
            neibs,
            tag.update(neibs[s]@[k] as int, adj_tag(other(to))),
            s,
            to,
            k + 1,
            joins,
        ),
{
    let n = st1.len() as int;
    let from = other(to);
    let ta = adj_tag(from);
    let row = neibs[s]@;
    let nb = row[k] as int;
    let tag2 = tag.update(nb, ta);
    lemma_back(neibs, n, s, k);
    assert(repair_at(st1, neibs, tag, s, to, k, joins, nb));
    let nrow = neibs[nb]@;
    assert(nrow[opposite(k)] != NONE && st1[nrow[opposite(k)] as int] == to);
    assert(row_has(st1, nrow, to));
    assert forall|g: int| 0 <= g < n implies #[trigger] repair_at(
        st1,
        neibs,
        tag2,
        s,
        to,
        k + 1,
        joins,
        g,
    ) by {
        assert(repair_at(st1, neibs, tag, s, to, k, joins, g));
        if g != nb {
            assert(tag2[g] == tag[g]);
            if pending(row, k, g) {
                lemma_pending_next(row, k, g);
            }
            if g == s && unseen(row, k, s) {
                assert(unseen(row, k + 1, s));
            }
        }
    }
}

/// What a visit to slot `k` keeps when the slot holds a site of the new
/// phase with no neighbour of the old phase, which leaves its set.
proof fn lemma_step_rem(
    st1: Seq<u8>,
    neibs: Seq<[usize; 6]>,
    tag: Seq<u8>,
    s: int,
    to: u8,
    k: int,
    joins: bool,
)
    requires
        to == GAS || to == CRYSTAL,
        neibs_ok(neibs, st1.len() as int),
        st1.len() <= usize::MAX,
        tag.len() == st1.len(),
        0 <= s < st1.len(),
        0 <= k < 6,
        repair_inv(st1, neibs, tag, s, to, k, joins),
        neibs[s]@[k] != NONE,
        st1[neibs[s]@[k] as int] == to,
        !row_has(st1, neibs[neibs[s]@[k] as int]@, other(to)),
    ensures
        repair_inv(
            st1,
            neibs,
            if tag[neibs[s]@[k] as int] == adj_tag(to) {
                tag.update(neibs[s]@[k] as int, TAG_NONE)
            } else {
                tag
            },
            s,
            to,
            k + 1,
            joins,
        ),
{
    let n = st1.len() as int;
    let from = other(to);
    let tb = adj_tag(to);
    let row = neibs[s]@;
    let nb = row[k] as int;
    let tag2 = if tag[nb] == tb {
        tag.update(nb, TAG_NONE)
    } else {
        tag
    };
    lemma_back(neibs, n, s, k);
    assert(repair_at(st1, neibs, tag, s, to, k, joins, nb));
    assert forall|g: int| 0 <= g < n implies #[trigger] repair_at(
        st1,
        neibs,
        tag2,
        s,
        to,
        k + 1,
        joins,
        g,
    ) by {
        assert(repair_at(st1, neibs, tag, s, to, k, joins, g));
        if g != nb {
            assert(tag2[g] == tag[g]);
            if pending(row, k, g) {
                lemma_pending_next(row, k, g);
            }
            if g == s && unseen(row, k, s) {
                assert(unseen(row, k + 1, s));
            }
        }
    }
}

/// The repair of one more neighbour keeps what holds of every site.
pub proof fn lemma_repair_step(
    st1: Seq<u8>,
    neibs: Seq<[usize; 6]>,
    m: FrontierModel,
    s: int,
    to: u8,
    k: int,
    joins: bool,
)
    requires
        to == GAS || to == CRYSTAL,
        neibs_ok(neibs, st1.len() as int),
        st1.len() <= usize::MAX,
        m.n() == st1.len(),
        phases_ok(st1),
        0 <= s < st1.len(),
        st1[s] == to,
        0 <= k < 6,
        repair_inv(st1, neibs, m.tag, s, to, k, joins),
    ensures
        repair_inv(
            st1,
            neibs,
            patch_slot(m, st1, neibs, neibs[s]@[k], to).tag,
            s,
            to,
            k + 1,
            joins,
        ),
        neibs[s]@[k] != NONE && st1[neibs[s]@[k] as int] == other(to) ==> m.tag[neibs[s]@[k] as int]
            != adj_tag(to),
{
    let n = st1.len() as int;
    let from = other(to);
    let nb = neibs[s]@[k];
    if nb == NONE {
        lemma_step_same(st1, neibs, m.tag, s, to, k, joins);
    } else {
        lemma_back(neibs, n, s, k);
        if st1[nb as int] == from {
            lemma_add_tags(m, adj_tag(from), nb as int);
            lemma_step_add(st1, neibs, m.tag, s, to, k, joins);
        } else if !row_has(st1, neibs[nb as int]@, from) {
            assert(st1[nb as int] == GAS || st1[nb as int] == CRYSTAL);
            lemma_rem_tags(m, adj_tag(to), nb as int);
            lemma_step_rem(st1, neibs, m.tag, s, to, k, joins);
        } else {
            assert(st1[nb as int] == GAS || st1[nb as int] == CRYSTAL);
            lemma_step_same(st1, neibs, m.tag, s, to, k, joins);
        }
    }
}

/// What the finished repair gives: every member has the phase of its set, and
/// the index holds the interface unless a new crystal site lies at an open
/// face of the lattice.
pub proof fn lemma_repair_final(
    st0: Seq<u8>,
    neibs: Seq<[usize; 6]>,
    m: FrontierModel,
    s: int,
    to: u8,
)
    requires
        to == GAS || to == CRYSTAL,
        neibs_ok(neibs, st0.len() as int),
        st0.len() <= usize::MAX,
        m.n() == st0.len(),
        phases_ok(st0),
        0 <= s < st0.len(),
        st0[s] == other(to),
        repair_inv(st0.update(s, to), neibs, m.tag, s, to, 6, self_joins(st0, neibs[s]@, to)),
    ensures
        phases_ok(st0.update(s, to)),
        tags_sound(st0.update(s, to), m),
        to == GAS || !row_open(neibs[s]@) ==> interface_ok(st0.update(s, to), neibs, m),
{
    let n = st0.len() as int;
    let st1 = st0.update(s, to);
    let from = other(to);
    let ta = adj_tag(from);
    let tb = adj_tag(to);
    let row = neibs[s]@;
    let joins = self_joins(st0, row, to);
    lemma_rows_in_range(neibs, n, s);
    assert forall|g: int| 0 <= g < n implies #[trigger] st1[g] == GAS || st1[g] == CRYSTAL by {
        assert(st0[g] == GAS || st0[g] == CRYSTAL);
    }
    assert forall|g: int| 0 <= g < n implies (#[trigger] m.tag[g] == TAG_GAS_ADJ ==> st1[g] == GAS)
        && (m.tag[g] == TAG_CRYSTAL_ADJ ==> st1[g] == CRYSTAL) by {
        assert(repair_at(st1, neibs, m.tag, s, to, 6, joins, g));
    }
    if to == GAS || !row_open(row) {
        assert forall|g: int| 0 <= g < n implies #[trigger] side_matches(st1, neibs, m, g, GAS)
            && side_matches(st1, neibs, m, g, CRYSTAL) by {
            assert(repair_at(st1, neibs, m.tag, s, to, 6, joins, g));
            let grow = neibs[g]@;
            assert(!pending(row, 6, g));
            if m.tag[g] == tb && !row_has(st1, grow, from) {
                // only the flipped site itself can be left wrong, and only when
                // it is not its own neighbour
                assert(g == s && unseen(row, 6, s) && joins);
                assert forall|d: int| 0 <= d < 6 implies slot_crystal(st0, row, d) == (if to
                    == CRYSTAL {
                    1int
                } else {
                    0int
                }) by {
                    assert(row[d] != s);
                    if row[d] != NONE {
                        assert(st1[row[d] as int] != from);
                        assert(st0[row[d] as int] == GAS || st0[row[d] as int] == CRYSTAL);
                        assert(st0[row[d] as int] == st1[row[d] as int]);
                    } else {
                        assert(row_open(row));
                    }
                }
                lemma_total_extremes(st0, row);
                assert(false);
            }
            assert(side_matches(st1, neibs, m, g, from));
            assert(side_matches(st1, neibs, m, g, to));
        }
    }
}

/// The repair of the first `k` neighbours keeps what holds of every site and
/// the number of sites that the index covers.
proof fn lemma_patch_upto(
    st1: Seq<u8>,
    neibs: Seq<[usize; 6]>,
    m: FrontierModel,
    s: int,
    to: u8,
    joins: bool,
    k: int,
)
    requires
        to == GAS || to == CRYSTAL,
        neibs_ok(neibs, st1.len() as int),
        st1.len() <= usize::MAX,
        m.n() == st1.len(),
        phases_ok(st1),
        0 <= s < st1.len(),
        st1[s] == to,
        0 <= k <= 6,
        repair_inv(st1, neibs, m.tag, s, to, 0, joins),
    ensures
        patch_upto(m, st1, neibs, s, to, k).n() == st1.len(),
        repair_inv(st1, neibs, patch_upto(m, st1, neibs, s, to, k).tag, s, to, k, joins),
    decreases k,
{
    if k > 0 {
        lemma_patch_upto(st1, neibs, m, s, to, joins, k - 1);
        let before = patch_upto(m, st1, neibs, s, to, k - 1);
        let nb = neibs[s]@[k - 1];
        lemma_repair_step(st1, neibs, before, s, to, k - 1, joins);
        lemma_rows_in_range(neibs, st1.len() as int, s);
        if nb != NONE {
            lemma_add_tags(before, adj_tag(other(to)), nb as int);
            lemma_rem_tags(before, adj_tag(to), nb as int);
        }
    }
}

/// What a flip gives, stated of the index alone: after site `s` of a replica
/// at rest has taken phase `to`, the repaired index covers the same sites,
/// every member has the phase of its set, and the index holds the interface
/// unless a new crystal site lies at an open face of the lattice.
pub proof fn lemma_flip_interface(
    st0: Seq<u8>,
    neibs: Seq<[usize; 6]>,
    m0: FrontierModel,
    s: int,
    to: u8,
)
    requires
        to == GAS || to == CRYSTAL,
        neibs_ok(neibs, st0.len() as int),
        st0.len() <= usize::MAX,
        m0.n() == st0.len(),
        phases_ok(st0),
        interface_ok(st0, neibs, m0),
        0 <= s < st0.len(),
        m0.tag[s] == adj_tag(other(to)),
    ensures
        flip_model(m0, st0, neibs, s, to).n() == st0.len(),
        phases_ok(st0.update(s, to)),
        tags_sound(st0.update(s, to), flip_model(m0, st0, neibs, s, to)),
        to == GAS || !row_open(neibs[s]@) ==> interface_ok(
            st0.update(s, to),
            neibs,
            flip_model(m0, st0, neibs, s, to),
        ),
{
    let st1 = st0.update(s, to);
    let from = other(to);
    let joins = self_joins(st0, neibs[s]@, to);
    let left = model_rem(m0, adj_tag(from), s);
    lemma_rem_tags(m0, adj_tag(from), s);
    let joined = if joins {
        model_add(left, adj_tag(to), s)
    } else {
        left
    };
    if joins {
        lemma_add_tags(left, adj_tag(to), s);
    }
    assert(joined.tag =~= m0.tag.update(
        s,
        if joins {
            adj_tag(to)
        } else {
            TAG_NONE
        },
    ));
    assert(side_matches(st0, neibs, m0, s, GAS));
    assert(side_matches(st0, neibs, m0, s, CRYSTAL));
    lemma_repair_init(st0, neibs, m0, s, to);
    assert forall|g: int| 0 <= g < st1.len() implies #[trigger] st1[g] == GAS || st1[g]
        == CRYSTAL by {
        assert(st0[g] == GAS || st0[g] == CRYSTAL);
    }
    lemma_patch_upto(st1, neibs, joined, s, to, joins, 6);
    lemma_repair_final(st0, neibs, flip_model(m0, st0, neibs, s, to), s, to);
}

/// Adds `x` to the set that sites of `phase` join.
fn front_add(front: &mut Frontier, phase: u8, x: usize)
    requires
        old(front).wf(),
        x < old(front)@.n(),
        old(front)@.tag[x as int] != adj_tag(other(phase)),
    ensures
        final(front)@ == model_add(old(front)@, adj_tag(phase), x as int),
        final(front).wf(),
{
    if phase == GAS {
        front.tpa_add(x);
    } else {
        front.tpb_add(x);
    }
}

/// Removes `x` from the set that sites of `phase` join.
fn front_rem(front: &mut Frontier, phase: u8, x: usize)
    requires
        old(front).wf(),
        x < old(front)@.n(),
    ensures
        final(front)@ == model_rem(old(front)@, adj_tag(phase), x as int),
        final(front).wf(),
{
    if phase == GAS {
        front.tpa_rem(x);
    } else {
        front.tpb_rem(x);
    }
}

/// Gives site `idxg` the phase `to` and repairs the index: the site leaves
/// the set of its old phase and joins the set of its new phase by its count
/// of crystal neighbours; each neighbour of the old phase joins its set, and
/// each neighbour of the new phase leaves its set when it has no neighbour of
/// the old phase left. Returns whether a neighbour slot of the site is
/// `NONE`.
pub fn flip_site(
    state: &mut Vec<u8>,
    front: &mut Frontier,
    neibs: &[[usize; 6]],
    idxg: usize,
    to: u8,
) -> (boundary: bool)
    requires
        to == GAS || to == CRYSTAL,
        replica_ok(old(state)@, neibs@, old(front)),
        idxg < old(state)@.len(),
        old(front)@.tag[idxg as int] == adj_tag(other(to)),
    ensures
        final(state)@ == old(state)@.update(idxg as int, to),
        boundary == row_open(neibs@[idxg as int]@),
        final(front)@ == flip_model(old(front)@, old(state)@, neibs@, idxg as int, to),
        final(front).wf(),
        final(front)@.n() == old(front)@.n(),
        phases_ok(final(state)@),
        tags_sound(final(state)@, final(front)@),
        to == GAS || !boundary ==> replica_ok(final(state)@, neibs@, final(front)),
        count_crystal(final(state)@) == count_crystal(old(state)@) + (if to == CRYSTAL {
            1int
        } else {
            -1int
        }),
{
    let ghost st0 = state@;
    let ghost m0 = front@;
    let ghost n = st0.len() as int;
    let ghost s = idxg as int;
    let from: u8 = if to == GAS {
        CRYSTAL
    } else {
        GAS
    };
    proof {
        assert(state@.len() == state.len());
        lemma_rows_in_range(neibs@, n, s);
        assert(side_matches(st0, neibs@, m0, s, GAS));
        assert(side_matches(st0, neibs@, m0, s, CRYSTAL));
        lemma_count_update(st0, s, to);
        lemma_repair_init(st0, neibs@, m0, s, to);
    }
    let row: &[usize; 6] = &neibs[idxg];
    let (smx_yz, smy_xz, smz_xy) = compute_neighbor_sums(state.as_slice(), row);
    proof {
        lemma_total_bounds(st0, row@, 0);
    }
    let sum: u8 = smx_yz + smy_xz + smz_xy;
    let joins: bool = if to == CRYSTAL {
        sum < 6
    } else {
        sum > 0
    };

    state.set(idxg, to);
    front_rem(front, from, idxg);
    proof {
        lemma_rem_tags(m0, adj_tag(from), s);
    }
    if joins {
        let ghost left = front@;
        front_add(front, to, idxg);
        proof {
            lemma_add_tags(left, adj_tag(to), s);
        }
    }
    let ghost joined = front@;
    let ghost st1 = state@;
    proof {
        assert(joined.tag =~= m0.tag.update(
            s,
            if joins {
                adj_tag(to)
            } else {
                TAG_NONE
            },
        ));
    }

    let mut boundary = false;
    let mut k: usize = 0;
    while k < 6
        invariant
            k <= 6,
            to == GAS || to == CRYSTAL,
            from == other(to),
            state@ == st1,
            0 <= s < n,
            n == st0.len(),
            n <= usize::MAX,
            st1 == st0.update(s, to),
            st1.len() == n,
            s == idxg,
            neibs_ok(neibs@, n),
            phases_ok(st1),
            row@ == neibs@[s]@,
            row_in_range(row@, n),
            front.wf(),
            front@.n() == n,
            front@ == patch_upto(joined, st1, neibs@, s, to, k as int),
            boundary == exists|j: int| 0 <= j < k && #[trigger] row@[j] == NONE,
            repair_inv(st1, neibs@, front@.tag, s, to, k as int, joins),
        decreases 6 - k,
    {
        let neib_idx = row[k];
        proof {
            lemma_repair_step(st1, neibs@, front@, s, to, k as int, joins);
            assert(patch_upto(joined, st1, neibs@, s, to, k + 1) == patch_slot(
                patch_upto(joined, st1, neibs@, s, to, k as int),
                st1,
                neibs@,
                neibs@[s]@[k as int],
                to,
            ));
        }
        if neib_idx == usize::MAX {
            boundary = true;
        } else {
            proof {
                lemma_rows_in_range(neibs@, n, neib_idx as int);
            }
            let phase = state[neib_idx];
            if phase == from {
                front_add(front, from, neib_idx);
            } else if phase == to {
                if !any_neighbor_is(state.as_slice(), &neibs[neib_idx], from) {
                    front_rem(front, to, neib_idx);
                }
            }
        }
        k += 1;
    }
    proof {
        lemma_repair_final(st0, neibs@, front@, s, to);
        assert(boundary == row_open(row@));
    }
    boundary
}

} // verus!
