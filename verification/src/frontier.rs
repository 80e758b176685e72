//! The interface index: the gas sites next to crystal (`GasAdj`) and the
//! crystal sites next to gas (`CrystalAdj`), each held as a dense array of
//! members with a reverse map, so that adding, removing and picking a member
//! by position take constant time.

use rand_chacha::ChaCha8Rng;
use vstd::prelude::*;
use crate::rng::random_index;

verus! {

/// Tag of a site that belongs to neither set.
pub const TAG_NONE: u8 = 0;

/// Tag of a member of `GasAdj`.
pub const TAG_GAS_ADJ: u8 = 2;

/// Tag of a member of `CrystalAdj`.
pub const TAG_CRYSTAL_ADJ: u8 = 3;

/// What an index holds: the two member arrays in order, the tag of every
/// site, and the position that every site records.
pub struct FrontierModel {
    pub tpas: Seq<usize>,
    pub tpbs: Seq<usize>,
    pub tag: Seq<u8>,
    pub pos: Seq<usize>,
}

impl FrontierModel {
    /// The number of sites that the index covers.
    pub open spec fn n(self) -> int {
        self.tag.len() as int
    }

    /// The index over `n` sites with no member.
    pub open spec fn empty(n: nat) -> FrontierModel {
        FrontierModel {
            tpas: Seq::empty(),
            tpbs: Seq::empty(),
            tag: Seq::new(n, |i: int| TAG_NONE),
            pos: Seq::new(n, |i: int| 0usize),
        }
    }

    /// Whether site `g` is a member of `GasAdj`.
    pub open spec fn in_gas_adj(self, g: int) -> bool {
        0 <= g < self.n() && self.tag[g] == TAG_GAS_ADJ
    }

    /// Whether site `g` is a member of `CrystalAdj`.
    pub open spec fn in_crystal_adj(self, g: int) -> bool {
        0 <= g < self.n() && self.tag[g] == TAG_CRYSTAL_ADJ
    }

    /// The set `GasAdj`.
    pub open spec fn gas_adj(self) -> Set<int> {
        Set::new(|g: int| self.in_gas_adj(g))
    }

    /// The set `CrystalAdj`.
    pub open spec fn crystal_adj(self) -> Set<int> {
        Set::new(|g: int| self.in_crystal_adj(g))
    }

    /// The member array `members` lists exactly the sites tagged `kind`, each
    /// once, and every member records its own position.
    pub open spec fn side_ok(self, members: Seq<usize>, kind: u8) -> bool {
        &&& forall|i: int|
            0 <= i < members.len() ==> (#[trigger] members[i]) < self.n() && self.tag[members[i] as int]
                == kind && self.pos[members[i] as int] == i
        &&& forall|g: int|
            0 <= g < self.n() && #[trigger] self.tag[g] == kind ==> self.pos[g] < members.len()
                && members[self.pos[g] as int] == g
    }

    /// The index is consistent: every site carries one of the three tags, the
    /// two member arrays agree with the tags and with the reverse map, and a
    /// site outside both sets records position zero.
    pub open spec fn wf(self) -> bool {
        &&& self.pos.len() == self.tag.len()
        &&& forall|g: int|
            0 <= g < self.n() ==> #[trigger] self.tag[g] == TAG_NONE || self.tag[g] == TAG_GAS_ADJ
                || self.tag[g] == TAG_CRYSTAL_ADJ
        &&& self.side_ok(self.tpas, TAG_GAS_ADJ)
        &&& self.side_ok(self.tpbs, TAG_CRYSTAL_ADJ)
        &&& forall|g: int| 0 <= g < self.n() && #[trigger] self.tag[g] == TAG_NONE ==> self.pos[g] == 0
    }

    /// The index after `x` is added to `GasAdj`: unchanged when `x` is a
    /// member, else `x` goes to the end of the member array.
    pub open spec fn add_a(self, x: int) -> FrontierModel {
        if self.tag[x] == TAG_GAS_ADJ {
            self
        } else {
            FrontierModel {
                tpas: self.tpas.push(x as usize),
                tpbs: self.tpbs,
                tag: self.tag.update(x, TAG_GAS_ADJ),
                pos: self.pos.update(x, self.tpas.len() as usize),
            }
        }
    }

    /// The index after `x` is added to `CrystalAdj`.
    pub open spec fn add_b(self, x: int) -> FrontierModel {
        if self.tag[x] == TAG_CRYSTAL_ADJ {
            self
        } else {
            FrontierModel {
                tpas: self.tpas,
                tpbs: self.tpbs.push(x as usize),
                tag: self.tag.update(x, TAG_CRYSTAL_ADJ),
                pos: self.pos.update(x, self.tpbs.len() as usize),
            }
        }
    }

    /// The index after `x` is removed from `GasAdj`: unchanged when `x` is no
    /// member, else the last member takes the place of `x` and the array
    /// loses its last entry.
    pub open spec fn rem_a(self, x: int) -> FrontierModel {
        if self.tag[x] != TAG_GAS_ADJ {
            self
        } else {
            let p = self.pos[x];
            let last = self.tpas.last();
            let rest = self.tpas.drop_last();
            FrontierModel {
                tpas: if p != rest.len() {
                    rest.update(p as int, last)
                } else {
                    rest
                },
                tpbs: self.tpbs,
                tag: self.tag.update(x, TAG_NONE),
                pos: if p != rest.len() {
                    self.pos.update(last as int, p).update(x, 0)
                } else {
                    self.pos.update(x, 0)
                },
            }
        }
    }

    /// The index after `x` is removed from `CrystalAdj`.
    pub open spec fn rem_b(self, x: int) -> FrontierModel {
        if self.tag[x] != TAG_CRYSTAL_ADJ {
            self
        } else {
            let p = self.pos[x];
            let last = self.tpbs.last();
            let rest = self.tpbs.drop_last();
            FrontierModel {
                tpas: self.tpas,
                tpbs: if p != rest.len() {
                    rest.update(p as int, last)
                } else {
                    rest
                },
                tag: self.tag.update(x, TAG_NONE),
                pos: if p != rest.len() {
                    self.pos.update(last as int, p).update(x, 0)
                } else {
                    self.pos.update(x, 0)
                },
            }
        }
    }

    /// Adding to `GasAdj` a site that is not in `CrystalAdj` keeps the index
    /// consistent.
    pub proof fn lemma_add_a_wf(self, x: int)
        requires
            self.wf(),
            0 <= x < self.n(),
            x <= usize::MAX,
            self.tpas.len() <= usize::MAX,
            self.tag[x] != TAG_CRYSTAL_ADJ,
        ensures
            self.add_a(x).wf(),
            self.add_a(x).n() == self.n(),
    {
        let m = self.add_a(x);
        if self.tag[x] != TAG_GAS_ADJ {
            assert forall|i: int| 0 <= i < m.tpas.len() implies (#[trigger] m.tpas[i]) < m.n()
                && m.tag[m.tpas[i] as int] == TAG_GAS_ADJ && m.pos[m.tpas[i] as int] == i by {
                if i < self.tpas.len() {
                    assert(self.tpas[i] == m.tpas[i]);
                }
            }
            assert forall|g: int| 0 <= g < m.n() && #[trigger] m.tag[g] == TAG_CRYSTAL_ADJ implies
                m.pos[g] < m.tpbs.len() && m.tpbs[m.pos[g] as int] == g by {
                assert(self.tag[g] == TAG_CRYSTAL_ADJ);
            }
            assert forall|i: int| 0 <= i < m.tpbs.len() implies (#[trigger] m.tpbs[i]) < m.n()
                && m.tag[m.tpbs[i] as int] == TAG_CRYSTAL_ADJ && m.pos[m.tpbs[i] as int] == i by {
                assert(self.tpbs[i] == m.tpbs[i]);
            }
            assert forall|g: int| 0 <= g < m.n() && #[trigger] m.tag[g] == TAG_GAS_ADJ implies
                m.pos[g] < m.tpas.len() && m.tpas[m.pos[g] as int] == g by {
                if g != x {
                    assert(self.tag[g] == TAG_GAS_ADJ);
                }
            }
            assert forall|g: int| 0 <= g < m.n() && #[trigger] m.tag[g] == TAG_NONE implies
                m.pos[g] == 0 by {
                assert(self.tag[g] == TAG_NONE);
            }
            assert forall|g: int| 0 <= g < m.n() implies #[trigger] m.tag[g] == TAG_NONE
                || m.tag[g] == TAG_GAS_ADJ || m.tag[g] == TAG_CRYSTAL_ADJ by {
                if g != x {
                    assert(self.tag[g] == m.tag[g]);
                }
            }
        }
    }

    /// Adding to `CrystalAdj` a site that is not in `GasAdj` keeps the index
    /// consistent.
    pub proof fn lemma_add_b_wf(self, x: int)
        requires
            self.wf(),
            0 <= x < self.n(),
            x <= usize::MAX,
            self.tpbs.len() <= usize::MAX,
            self.tag[x] != TAG_GAS_ADJ,
        ensures
            self.add_b(x).wf(),
            self.add_b(x).n() == self.n(),
    {
        let m = self.add_b(x);
        if self.tag[x] != TAG_CRYSTAL_ADJ {
            assert forall|i: int| 0 <= i < m.tpbs.len() implies (#[trigger] m.tpbs[i]) < m.n()
                && m.tag[m.tpbs[i] as int] == TAG_CRYSTAL_ADJ && m.pos[m.tpbs[i] as int] == i by {
                if i < self.tpbs.len() {
                    assert(self.tpbs[i] == m.tpbs[i]);
                }
            }
            assert forall|g: int| 0 <= g < m.n() && #[trigger] m.tag[g] == TAG_GAS_ADJ implies
                m.pos[g] < m.tpas.len() && m.tpas[m.pos[g] as int] == g by {
                assert(self.tag[g] == TAG_GAS_ADJ);
            }
            assert forall|i: int| 0 <= i < m.tpas.len() implies (#[trigger] m.tpas[i]) < m.n()
                && m.tag[m.tpas[i] as int] == TAG_GAS_ADJ && m.pos[m.tpas[i] as int] == i by {
                assert(self.tpas[i] == m.tpas[i]);
            }
            assert forall|g: int| 0 <= g < m.n() && #[trigger] m.tag[g] == TAG_CRYSTAL_ADJ implies
                m.pos[g] < m.tpbs.len() && m.tpbs[m.pos[g] as int] == g by {
                if g != x {
                    assert(self.tag[g] == TAG_CRYSTAL_ADJ);
                }
            }
            assert forall|g: int| 0 <= g < m.n() && #[trigger] m.tag[g] == TAG_NONE implies
                m.pos[g] == 0 by {
                assert(self.tag[g] == TAG_NONE);
            }
            assert forall|g: int| 0 <= g < m.n() implies #[trigger] m.tag[g] == TAG_NONE
                || m.tag[g] == TAG_GAS_ADJ || m.tag[g] == TAG_CRYSTAL_ADJ by {
                if g != x {
                    assert(self.tag[g] == m.tag[g]);
                }
            }
        }
    }

    /// Removing a site from `GasAdj` keeps the index consistent.
    pub proof fn lemma_rem_a_wf(self, x: int)
        requires
            self.wf(),
            0 <= x < self.n(),
        ensures
            self.rem_a(x).wf(),
            self.rem_a(x).n() == self.n(),
    {
        let m = self.rem_a(x);
        if self.tag[x] == TAG_GAS_ADJ {
            let p = self.pos[x] as int;
            let last = self.tpas.last();
            let len = self.tpas.len() - 1;
            assert(self.tpas[len] == last);
            assert(self.tpas[p] == x);
            assert forall|i: int| 0 <= i < m.tpas.len() implies (#[trigger] m.tpas[i]) < m.n()
                && m.tag[m.tpas[i] as int] == TAG_GAS_ADJ && m.pos[m.tpas[i] as int] == i by {
                if i == p {
                    assert(m.tpas[i] == last);
                } else {
                    assert(m.tpas[i] == self.tpas[i]);
                    assert(self.pos[self.tpas[i] as int] == i);
                }
            }
            assert forall|g: int| 0 <= g < m.n() && #[trigger] m.tag[g] == TAG_GAS_ADJ implies
                m.pos[g] < m.tpas.len() && m.tpas[m.pos[g] as int] == g by {
                assert(self.tag[g] == TAG_GAS_ADJ);
                assert(g != x);
                if g == last {
                } else {
                    assert(m.pos[g] == self.pos[g]);
                    assert(self.tpas[self.pos[g] as int] == g);
                }
            }
            assert forall|i: int| 0 <= i < m.tpbs.len() implies (#[trigger] m.tpbs[i]) < m.n()
                && m.tag[m.tpbs[i] as int] == TAG_CRYSTAL_ADJ && m.pos[m.tpbs[i] as int] == i by {
                assert(self.tpbs[i] == m.tpbs[i]);
                assert(self.tag[self.tpbs[i] as int] == TAG_CRYSTAL_ADJ);
            }
            assert forall|g: int| 0 <= g < m.n() && #[trigger] m.tag[g] == TAG_CRYSTAL_ADJ implies
                m.pos[g] < m.tpbs.len() && m.tpbs[m.pos[g] as int] == g by {
                assert(self.tag[g] == TAG_CRYSTAL_ADJ);
            }
            assert forall|g: int| 0 <= g < m.n() && #[trigger] m.tag[g] == TAG_NONE implies
                m.pos[g] == 0 by {
                if g != x {
                    assert(self.tag[g] == TAG_NONE);
                }
            }
            assert forall|g: int| 0 <= g < m.n() implies #[trigger] m.tag[g] == TAG_NONE
                || m.tag[g] == TAG_GAS_ADJ || m.tag[g] == TAG_CRYSTAL_ADJ by {
                if g != x {
                    assert(self.tag[g] == m.tag[g]);
                }
            }
        }
    }

    /// Removing a site from `CrystalAdj` keeps the index consistent.
    pub proof fn lemma_rem_b_wf(self, x: int)
        requires
            self.wf(),
            0 <= x < self.n(),
        ensures
            self.rem_b(x).wf(),
            self.rem_b(x).n() == self.n(),
    {
        let m = self.rem_b(x);
        if self.tag[x] == TAG_CRYSTAL_ADJ {
            let p = self.pos[x] as int;
            let last = self.tpbs.last();
            let len = self.tpbs.len() - 1;
            assert(self.tpbs[len] == last);
            assert(self.tpbs[p] == x);
            assert forall|i: int| 0 <= i < m.tpbs.len() implies (#[trigger] m.tpbs[i]) < m.n()
                && m.tag[m.tpbs[i] as int] == TAG_CRYSTAL_ADJ && m.pos[m.tpbs[i] as int] == i by {
                if i == p {
                    assert(m.tpbs[i] == last);
                } else {
                    assert(m.tpbs[i] == self.tpbs[i]);
                    assert(self.pos[self.tpbs[i] as int] == i);
                }
            }
            assert forall|g: int| 0 <= g < m.n() && #[trigger] m.tag[g] == TAG_CRYSTAL_ADJ implies
                m.pos[g] < m.tpbs.len() && m.tpbs[m.pos[g] as int] == g by {
                assert(self.tag[g] == TAG_CRYSTAL_ADJ);
                assert(g != x);
                if g == last {
                } else {
                    assert(m.pos[g] == self.pos[g]);
                    assert(self.tpbs[self.pos[g] as int] == g);
                }
            }
            assert forall|i: int| 0 <= i < m.tpas.len() implies (#[trigger] m.tpas[i]) < m.n()
                && m.tag[m.tpas[i] as int] == TAG_GAS_ADJ && m.pos[m.tpas[i] as int] == i by {
                assert(self.tpas[i] == m.tpas[i]);
                assert(self.tag[self.tpas[i] as int] == TAG_GAS_ADJ);
            }
            assert forall|g: int| 0 <= g < m.n() && #[trigger] m.tag[g] == TAG_GAS_ADJ implies
                m.pos[g] < m.tpas.len() && m.tpas[m.pos[g] as int] == g by {
                assert(self.tag[g] == TAG_GAS_ADJ);
            }
            assert forall|g: int| 0 <= g < m.n() && #[trigger] m.tag[g] == TAG_NONE implies
                m.pos[g] == 0 by {
                if g != x {
                    assert(self.tag[g] == TAG_NONE);
                }
            }
            assert forall|g: int| 0 <= g < m.n() implies #[trigger] m.tag[g] == TAG_NONE
                || m.tag[g] == TAG_GAS_ADJ || m.tag[g] == TAG_CRYSTAL_ADJ by {
                if g != x {
                    assert(self.tag[g] == m.tag[g]);
                }
            }
        }
    }

    /// Adding a site that is in neither set to `GasAdj` and removing it again
    /// gives the index back as it was.
    pub proof fn lemma_add_then_remove_a(self, x: int)
        requires
            self.wf(),
            0 <= x < self.n(),
            x <= usize::MAX,
            self.tpas.len() <= usize::MAX,
            self.tag[x] == TAG_NONE,
        ensures
            self.add_a(x).rem_a(x) == self,
    {
        let m = self.add_a(x);
        let r = m.rem_a(x);
        assert(m.tpas.drop_last() =~= self.tpas);
        assert(r.tpas =~= self.tpas);
        assert(r.tag =~= self.tag);
        assert(r.pos =~= self.pos);
    }

    /// Adding a site that is in neither set to `CrystalAdj` and removing it
    /// again gives the index back as it was.
    pub proof fn lemma_add_then_remove_b(self, x: int)
        requires
            self.wf(),
            0 <= x < self.n(),
            x <= usize::MAX,
            self.tpbs.len() <= usize::MAX,
            self.tag[x] == TAG_NONE,
        ensures
            self.add_b(x).rem_b(x) == self,
    {
        let m = self.add_b(x);
        let r = m.rem_b(x);
        assert(m.tpbs.drop_last() =~= self.tpbs);
        assert(r.tpbs =~= self.tpbs);
        assert(r.tag =~= self.tag);
        assert(r.pos =~= self.pos);
    }

    /// The two sets of a consistent index share no site.
    pub proof fn lemma_disjoint(self)
        requires
            self.wf(),
        ensures
            self.gas_adj().disjoint(self.crystal_adj()),
    {
    }
}

/// The interface index over the sites of one lattice. `tpas` lists the
/// members of `GasAdj`, `tpbs` those of `CrystalAdj`; the counters hold the
/// lengths of the two arrays.
#[derive(Debug)]
pub struct Frontier {
    pub tpas: Vec<usize>,
    pub tpbs: Vec<usize>,
    /// The tag of every site.
    pub idxg_to_type: Vec<u8>,
    /// The position that every site records; zero for a site in neither set.
    pub idxg_to_idxl: Vec<usize>,
    pub tpas_size: usize,
    pub tpbs_size: usize,
}

impl View for Frontier {
    type V = FrontierModel;

    open spec fn view(&self) -> FrontierModel {
        FrontierModel {
            tpas: self.tpas@,
            tpbs: self.tpbs@,
            tag: self.idxg_to_type@,
            pos: self.idxg_to_idxl@,
        }
    }
}

impl Frontier {
    /// The index is consistent and its two counters hold the lengths of the
    /// member arrays.
    pub open spec fn wf(&self) -> bool {
        &&& self@.wf()
        &&& self.tpas_size == self.tpas@.len()
        &&& self.tpbs_size == self.tpbs@.len()
    }

    /// An index over `total_grid_size` sites with no member.
    #[inline(always)]
    pub fn new(total_grid_size: usize) -> (front: Self)
        ensures
            front.wf(),
            front@ == FrontierModel::empty(total_grid_size as nat),
    {
        let tenth = total_grid_size / 10;
        let initial_capacity: usize = if tenth > 128 {
            tenth
        } else {
            128
        };
        let mut idxg_to_type: Vec<u8> = Vec::new();
        let mut idxg_to_idxl: Vec<usize> = Vec::new();
        let mut i: usize = 0;
        while i < total_grid_size
            invariant
                i <= total_grid_size,
                idxg_to_type@.len() == i,
                idxg_to_idxl@.len() == i,
                forall|j: int| 0 <= j < i ==> idxg_to_type@[j] == TAG_NONE,
                forall|j: int| 0 <= j < i ==> idxg_to_idxl@[j] == 0,
            decreases total_grid_size - i,
        {
            idxg_to_type.push(0);
            idxg_to_idxl.push(0);
            i += 1;
        }
        let front = Self {
            tpas: Vec::with_capacity(initial_capacity),
            tpbs: Vec::with_capacity(initial_capacity),
            idxg_to_type,
            idxg_to_idxl,
            tpas_size: 0,
            tpbs_size: 0,
        };
        proof {
            let e = FrontierModel::empty(total_grid_size as nat);
            assert(front@.tag =~= e.tag);
            assert(front@.pos =~= e.pos);
            assert(front@.tpas =~= e.tpas);
            assert(front@.tpbs =~= e.tpbs);
        }
        front
    }

    /// The number of members of `GasAdj`.
    #[inline(always)]
    pub fn tpa_size(&self) -> (len: usize)
        requires
            self.wf(),
        ensures
            len == self@.tpas.len(),
    {
        self.tpas_size
    }

    /// The number of members of `CrystalAdj`.
    #[inline(always)]
    pub fn tpb_size(&self) -> (len: usize)
        requires
            self.wf(),
        ensures
            len == self@.tpbs.len(),
    {
        self.tpbs_size
    }

    /// The member of `GasAdj` at position `idxl`.
    #[inline(always)]
    pub fn tpa_at(&self, idxl: usize) -> (idxg: usize)
        requires
            self.wf(),
            idxl < self@.tpas.len(),
        ensures
            idxg == self@.tpas[idxl as int],
            self@.in_gas_adj(idxg as int),
    {
        self.tpas[idxl]
    }

    /// The member of `CrystalAdj` at position `idxl`.
    #[inline(always)]
    pub fn tpb_at(&self, idxl: usize) -> (idxg: usize)
        requires
            self.wf(),
            idxl < self@.tpbs.len(),
        ensures
            idxg == self@.tpbs[idxl as int],
            self@.in_crystal_adj(idxg as int),
    {
        self.tpbs[idxl]
    }

    /// A member of `GasAdj`, drawn from the generator with the same chance
    /// for every position of the member array.
    #[inline(always)]
    pub fn tpa_sample(&self, rng: &mut ChaCha8Rng) -> (idxg: usize)
        requires
            self.wf(),
            self@.tpas.len() > 0,
        ensures
            self@.in_gas_adj(idxg as int),
            self@.tpas.contains(idxg),
    {
        let idxl = random_index(rng, self.tpas_size);
        self.tpas[idxl]
    }

    /// A member of `CrystalAdj`, drawn from the generator with the same
    /// chance for every position of the member array.
    #[inline(always)]
    pub fn tpb_sample(&self, rng: &mut ChaCha8Rng) -> (idxg: usize)
        requires
            self.wf(),
            self@.tpbs.len() > 0,
        ensures
            self@.in_crystal_adj(idxg as int),
            self@.tpbs.contains(idxg),
    {
        let idxl = random_index(rng, self.tpbs_size);
        self.tpbs[idxl]
    }

    /// A consistent index has a consistent model.
    pub proof fn lemma_wf_model(&self)
        requires
            self.wf(),
        ensures
            self@.wf(),
    {
    }

    /// Adds `idxg` to `GasAdj`; nothing changes when it is a member.
    #[inline(always)]
    pub fn tpa_add(&mut self, idxg: usize)
        requires
            old(self).wf(),
            idxg < old(self)@.n(),
        ensures
            final(self)@ == old(self)@.add_a(idxg as int),
            old(self)@.tag[idxg as int] != TAG_CRYSTAL_ADJ ==> final(self).wf(),
    {
        if self.idxg_to_type[idxg] == 2 {
            return ;
        }
        self.idxg_to_idxl.set(idxg, self.tpas_size);
        self.tpas.push(idxg);
        self.idxg_to_type.set(idxg, 2);
        assert(self.tpas@.len() == self.tpas.len());
        self.tpas_size += 1;
        proof {
            if old(self)@.tag[idxg as int] != TAG_CRYSTAL_ADJ {
                old(self)@.lemma_add_a_wf(idxg as int);
            }
        }
    }

    /// Removes `idxg` from `GasAdj`; nothing changes when it is no member.
    #[inline(always)]
    pub fn tpa_rem(&mut self, idxg: usize)
        requires
            old(self).wf(),
            idxg < old(self)@.n(),
        ensures
            final(self)@ == old(self)@.rem_a(idxg as int),
            final(self).wf(),
    {
        if self.idxg_to_type[idxg] != 2 {
            return ;
        }
        self.idxg_to_type.set(idxg, 0);
        let idxl = self.idxg_to_idxl[idxg];
        self.tpas_size -= 1;
        let last_idxg = match self.tpas.pop() {
            Some(last) => last,
            None => idxg,
        };
        if idxl != self.tpas_size {
            self.tpas.set(idxl, last_idxg);
            self.idxg_to_idxl.set(last_idxg, idxl);
        }
        self.idxg_to_idxl.set(idxg, 0);
        proof {
            old(self)@.lemma_rem_a_wf(idxg as int);
            assert(self@.tpas =~= old(self)@.rem_a(idxg as int).tpas);
            assert(self@.pos =~= old(self)@.rem_a(idxg as int).pos);
        }
    }

    /// Adds `idxg` to `CrystalAdj`; nothing changes when it is a member.
    #[inline(always)]
    pub fn tpb_add(&mut self, idxg: usize)
        requires
            old(self).wf(),
            idxg < old(self)@.n(),
        ensures
            final(self)@ == old(self)@.add_b(idxg as int),
            old(self)@.tag[idxg as int] != TAG_GAS_ADJ ==> final(self).wf(),
    {
        if self.idxg_to_type[idxg] == 3 {
            return ;
        }
        self.idxg_to_idxl.set(idxg, self.tpbs_size);
        self.tpbs.push(idxg);
        self.idxg_to_type.set(idxg, 3);
        assert(self.tpbs@.len() == self.tpbs.len());
        self.tpbs_size += 1;
        proof {
            if old(self)@.tag[idxg as int] != TAG_GAS_ADJ {
                old(self)@.lemma_add_b_wf(idxg as int);
            }
        }
    }

    /// Removes `idxg` from `CrystalAdj`; nothing changes when it is no
    /// member.
    #[inline(always)]
    pub fn tpb_rem(&mut self, idxg: usize)
        requires
            old(self).wf(),
            idxg < old(self)@.n(),
        ensures
            final(self)@ == old(self)@.rem_b(idxg as int),
            final(self).wf(),
    {
        if self.idxg_to_type[idxg] != 3 {
            return ;
        }
        self.idxg_to_type.set(idxg, 0);
        let idxl = self.idxg_to_idxl[idxg];
        self.tpbs_size -= 1;
        let last_idxg = match self.tpbs.pop() {
            Some(last) => last,
            None => idxg,
        };
        if idxl != self.tpbs_size {
            self.tpbs.set(idxl, last_idxg);
            self.idxg_to_idxl.set(last_idxg, idxl);
        }
        self.idxg_to_idxl.set(idxg, 0);
        proof {
            old(self)@.lemma_rem_b_wf(idxg as int);
            assert(self@.tpbs =~= old(self)@.rem_b(idxg as int).tpbs);
            assert(self@.pos =~= old(self)@.rem_b(idxg as int).pos);
        }
    }
}

} // verus!
