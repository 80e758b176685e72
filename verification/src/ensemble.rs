//! The ensemble: replicas over one lattice that share one generator, and the
//! bookkeeping of a global step.

use rand_chacha::ChaCha8Rng;
use vstd::prelude::*;
use crate::frontier::FrontierModel;
use crate::item::{log_closed, Cursor, Item, Status, StepCtx};
use crate::kernel::{count_crystal, lemma_table_len, phases_ok, CRYSTAL, GAS};
use crate::lattice::{dims_fit, Grid};
use crate::rebuild::scan_upto;
use crate::rng::rng_from_seed;
use crate::settings::{spec_fault, Settings, SettingsError};
use crate::state::SimLog;

verus! {

/// An ensemble: the settings, the generator, the lattice, the replicas that
/// are alive, the log of the ensemble, and the number of replicas at the
/// start.
#[derive(Debug)]
pub struct Ensemble {
    pub cfg: Settings,
    pub rng: ChaCha8Rng,
    pub grid: Grid,
    pub items: Vec<Item>,
    pub simlog: SimLog,
    pub items_len: usize,
    pub items_len0: usize,
}

/// The sum of the crystal counts that the logs of the replicas hold.
pub open spec fn total_n_cryst(items: Seq<Item>) -> nat
    decreases items.len(),
{
    if items.len() == 0 {
        0
    } else {
        total_n_cryst(items.drop_last()) + items.last().simlog.n_cryst.val as nat
    }
}

/// The replicas that are alive, in their order.
pub open spec fn alive_of(items: Seq<Item>) -> Seq<Item>
    decreases items.len(),
{
    if items.len() == 0 {
        Seq::empty()
    } else if items.last().is_alive {
        alive_of(items.drop_last()).push(items.last())
    } else {
        alive_of(items.drop_last())
    }
}

/// The replicas that have ended, in their order.
pub open spec fn dead_of(items: Seq<Item>) -> Seq<Item>
    decreases items.len(),
{
    if items.len() == 0 {
        Seq::empty()
    } else if !items.last().is_alive {
        dead_of(items.drop_last()).push(items.last())
    } else {
        dead_of(items.drop_last())
    }
}

/// Why an ensemble could not be set up.
#[derive(Debug)]
pub enum EnsembleError {
    /// A setting is out of range.
    Config(SettingsError),
    /// The initial state number `item` has not the size of the lattice, or
    /// holds a site that is neither gas nor crystal.
    InvalidData { item: usize },
}

/// A state fits a lattice of `size` sites: it has that many sites, each gas
/// or crystal.
pub open spec fn state_ok(data: Seq<u8>, size: int) -> bool {
    data.len() == size && phases_ok(data)
}

/// Whether a state fits a lattice of `size` sites.
pub fn state_valid(data: &Vec<u8>, size: usize) -> (ok: bool)
    ensures
        ok == state_ok(data@, size as int),
{
    if data.len() != size {
        return false;
    }
    let mut i: usize = 0;
    while i < size
        invariant
            i <= size,
            size == data@.len(),
            forall|j: int| 0 <= j < i ==> #[trigger] data@[j] == GAS || data@[j] == CRYSTAL,
        decreases size - i,
    {
        if data[i] > 1 {
            assert(!(data@[i as int] == GAS || data@[i as int] == CRYSTAL));
            return false;
        }
        i += 1;
    }
    true
}

/// The replica `fin` is the ended replica `dead` with its crystal measured
/// and a last history point taken.
pub open spec fn finalized(dead: Item, fin: Item, grid: &Grid) -> bool {
    &&& fin.item_gid == dead.item_gid
    &&& fin.state == dead.state
    &&& fin.front == dead.front
    &&& fin.is_alive == dead.is_alive
    &&& fin.status == dead.status
    &&& fin.cursor == dead.cursor
    &&& fin.ctx == dead.ctx
    &&& log_closed(
        dead.simlog,
        fin.simlog,
        grid,
        dead.front@.tpbs,
        StepCtx { step_id: dead.simlog.mk_step.val, is_write: true, ..dead.ctx },
    )
}

/// The log of a replica with `n` crystal sites after its first history
/// point: the crystal is measured, every scalar has one point, and the step
/// is zero.
pub open spec fn first_point(log: SimLog, grid: &Grid, members: Seq<usize>, n: u64) -> bool {
    &&& log.conc_neg_count == 0
    &&& log.n_cryst.val == n && log.n_cryst.is_on && log.n_cryst.log@ == seq![n]
    &&& log.cryst_sx.val == crate::state::coords_taken(grid, members, 0, grid.nx as int)
    &&& log.cryst_sy.val == crate::state::coords_taken(grid, members, 1, grid.ny as int)
    &&& log.cryst_sz.val == crate::state::coords_taken(grid, members, 2, grid.nz as int)
    &&& log.cryst_sx.is_on && log.cryst_sx.log@ == seq![log.cryst_sx.val]
    &&& log.cryst_sy.is_on && log.cryst_sy.log@ == seq![log.cryst_sy.val]
    &&& log.cryst_sz.is_on && log.cryst_sz.log@ == seq![log.cryst_sz.val]
    &&& log.mk_step.val == 0 && log.mk_step.is_on && log.mk_step.log@ == seq![0u64]
}

/// The log of an ensemble with `n` crystal sites after its first history
/// point: the crystal sizes are not recorded.
pub open spec fn first_ensemble_point(log: SimLog, n: u64) -> bool {
    &&& log.conc_neg_count == 0
    &&& log.n_cryst.val == n && log.n_cryst.is_on && log.n_cryst.log@ == seq![n]
    &&& log.cryst_sx.val == 0 && !log.cryst_sx.is_on && log.cryst_sx.log@.len() == 0
    &&& log.cryst_sy.val == 0 && !log.cryst_sy.is_on && log.cryst_sy.log@.len() == 0
    &&& log.cryst_sz.val == 0 && !log.cryst_sz.is_on && log.cryst_sz.log@.len() == 0
    &&& log.mk_step.val == 0 && log.mk_step.is_on && log.mk_step.log@ == seq![0u64]
}

/// The first history point of a replica depends on the dimensions of the
/// lattice only.
proof fn lemma_first_point_dims(log: SimLog, a: &Grid, b: &Grid, members: Seq<usize>, n: u64)
    requires
        a.nx == b.nx,
        a.ny == b.ny,
        a.nz == b.nz,
        first_point(log, a, members, n),
    ensures
        first_point(log, b, members, n),
{
    crate::state::lemma_coords_taken_dims(a, b, members, 0, a.nx as int);
    crate::state::lemma_coords_taken_dims(a, b, members, 1, a.ny as int);
    crate::state::lemma_coords_taken_dims(a, b, members, 2, a.nz as int);
}

/// The log of an ensemble after a global step: it holds the crystal count
/// `total`; when no replica is left or the step is a writing step, it records
/// the step and takes a history point.
pub open spec fn ensemble_logged(pre: SimLog, post: SimLog, total: u64, step_id: u64, point: bool) -> bool {
    let counted = SimLog {
        n_cryst: crate::state::LogEntry { val: total, log: pre.n_cryst.log, is_on: pre.n_cryst.is_on },
        ..pre
    };
    if point {
        &&& post.conc_neg_count == pre.conc_neg_count
        &&& post.n_cryst.val == total && post.n_cryst.is_on == pre.n_cryst.is_on
        &&& post.cryst_sx.val == pre.cryst_sx.val && post.cryst_sx.is_on == pre.cryst_sx.is_on
        &&& post.cryst_sy.val == pre.cryst_sy.val && post.cryst_sy.is_on == pre.cryst_sy.is_on
        &&& post.cryst_sz.val == pre.cryst_sz.val && post.cryst_sz.is_on == pre.cryst_sz.is_on
        &&& post.mk_step.val == step_id && post.mk_step.is_on == pre.mk_step.is_on
        &&& post.n_cryst.log@ == crate::item::logged(pre.n_cryst.log@, pre.n_cryst.is_on, total)
        &&& post.cryst_sx.log@ == crate::state::pushed(pre.cryst_sx)
        &&& post.cryst_sy.log@ == crate::state::pushed(pre.cryst_sy)
        &&& post.cryst_sz.log@ == crate::state::pushed(pre.cryst_sz)
        &&& post.mk_step.log@ == crate::item::logged(pre.mk_step.log@, pre.mk_step.is_on, step_id)
    } else {
        post == counted
    }
}

/// The log at the end of a step depends on the dimensions of the lattice
/// only.
proof fn lemma_log_closed_dims(pre: SimLog, post: SimLog, a: &Grid, b: &Grid, members: Seq<usize>, ctx: StepCtx)
    requires
        a.nx == b.nx,
        a.ny == b.ny,
        a.nz == b.nz,
        log_closed(pre, post, a, members, ctx),
    ensures
        log_closed(pre, post, b, members, ctx),
{
    crate::state::lemma_coords_taken_dims(a, b, members, 0, a.nx as int);
    crate::state::lemma_coords_taken_dims(a, b, members, 1, a.ny as int);
    crate::state::lemma_coords_taken_dims(a, b, members, 2, a.nz as int);
}

impl Ensemble {
    /// The lattice is complete, every replica is well formed over it, and
    /// the crystal counts of the replicas can be summed.
    pub open spec fn wf(&self) -> bool {
        &&& self.grid.wf()
        &&& self.items@.len() * self.grid.size <= u64::MAX
        &&& forall|i: int|
            0 <= i < self.items@.len() ==> (#[trigger] self.items@[i]).wf(self.grid.neibs@)
    }

    /// Every replica is at rest between two steps.
    pub open spec fn at_rest(&self) -> bool {
        forall|i: int| 0 <= i < self.items@.len() ==> (#[trigger] self.items@[i]).cursor == Cursor::Idle
    }

    /// The crystal count of the ensemble is the sum of the crystal counts of
    /// its replicas.
    pub open spec fn sum_ok(&self) -> bool {
        self.simlog.n_cryst.val == total_n_cryst(self.items@)
    }

    /// What a step of the replicas is given at `step_id`.
    pub fn step_ctx(&self, step_id: u64) -> (ctx: StepCtx)
        ensures
            ctx.mode == self.cfg.mode,
            ctx.step_id == step_id,
            ctx.is_add == self.cfg.spec_schedule().spec_flags(step_id).is_add,
            ctx.is_rem == self.cfg.spec_schedule().spec_flags(step_id).is_rem,
            ctx.is_write == self.cfg.spec_schedule().spec_flags(step_id).is_write,
    {
        let flags = self.cfg.schedule().flags(step_id);
        StepCtx {
            mode: self.cfg.mode,
            step_id,
            is_add: flags.is_add,
            is_rem: flags.is_rem,
            is_write: flags.is_write,
        }
    }

    /// Whether the run goes on with step `step_id`: the step lies within the
    /// step limit and a replica is left.
    pub fn goes_on(&self, step_id: u64) -> (go: bool)
        ensures
            go == (step_id <= self.cfg.step_lim && self.items@.len() > 0),
    {
        step_id <= self.cfg.step_lim && self.items.len() > 0
    }

    /// Sets up an ensemble: the settings are checked, the generator is
    /// seeded, the lattice is built, and one replica is made of every initial
    /// state, with its interface index, its crystal count, its crystal
    /// measured and a first history point. The log of the ensemble holds the
    /// sum of the crystal counts and a first history point.
    pub fn new(cfg: Settings, temperature_positive: bool, states: Vec<Vec<u8>>) -> (r: Result<
        Ensemble,
        EnsembleError,
    >)
        requires
            dims_fit(cfg.sx, cfg.sy, cfg.sz),
            states@.len() * (cfg.sx * cfg.sy * cfg.sz) <= u64::MAX,
        ensures
            r matches Err(EnsembleError::Config(e)) ==> spec_fault(&cfg, temperature_positive)
                is Some && (e.key matches Some(k) && Some((k@, e.source@)) == spec_fault(
                &cfg,
                temperature_positive,
            )),
            r matches Err(EnsembleError::InvalidData { item }) ==> {
                &&& spec_fault(&cfg, temperature_positive) is None
                &&& item < states@.len()
                &&& !state_ok(states@[item as int]@, cfg.sx * cfg.sy * cfg.sz)
                &&& forall|j: int|
                    0 <= j < item ==> state_ok((#[trigger] states@[j])@, cfg.sx * cfg.sy * cfg.sz)
            },
            r is Ok <==> spec_fault(&cfg, temperature_positive) is None && forall|j: int|
                0 <= j < states@.len() ==> state_ok(
                    (#[trigger] states@[j])@,
                    cfg.sx * cfg.sy * cfg.sz,
                ),
            r matches Ok(e) ==> {
                &&& e.wf()
                &&& e.at_rest()
                &&& e.sum_ok()
                &&& e.cfg == cfg
                &&& e.grid.nx == cfg.sx && e.grid.ny == cfg.sy && e.grid.nz == cfg.sz
                &&& e.grid.px == cfg.px && e.grid.py == cfg.py && e.grid.pz == cfg.pz
                &&& e.items@.len() == states@.len()
                &&& e.items_len == states@.len() && e.items_len0 == states@.len()
                &&& forall|j: int|
                    0 <= j < states@.len() ==> {
                        &&& (#[trigger] e.items@[j]).state@ == states@[j]@
                        &&& e.items@[j].item_gid == j
                        &&& e.items@[j].is_alive
                        &&& e.items@[j].front@ == scan_upto(
                            FrontierModel::empty(states@[j]@.len()),
                            states@[j]@,
                            e.grid.neibs@,
                            states@[j]@.len() as int,
                        )
                        &&& first_point(
                            e.items@[j].simlog,
                            &e.grid,
                            e.items@[j].front@.tpbs,
                            count_crystal(states@[j]@) as u64,
                        )
                    }
                &&& first_ensemble_point(e.simlog, e.simlog.n_cryst.val)
            },
    {
        match cfg.validate(temperature_positive) {
            Err(e) => {
                return Err(EnsembleError::Config(e));
            },
            Ok(()) => {},
        }
        let rng = rng_from_seed(cfg.seed);
        let mut grid = Grid::new(cfg.sx, cfg.sy, cfg.sz, cfg.px, cfg.py, cfg.pz);
        proof {
            grid.lemma_table_ok();
        }
        let mut simlog = SimLog::new();
        simlog.cryst_sx.is_on = false;
        simlog.cryst_sy.is_on = false;
        simlog.cryst_sz.is_on = false;
        let size = grid.size;
        let ghost neibs = grid.neibs@;
        let ghost g0 = grid;
        let count = states.len();
        let mut items: Vec<Item> = Vec::new();
        let mut total: u64 = 0;
        let mut i: usize = 0;
        while i < count
            invariant
                i <= count,
                count == states@.len(),
                count * size <= u64::MAX,
                size == cfg.sx * cfg.sy * cfg.sz,
                spec_fault(&cfg, temperature_positive) is None,
                grid.wf(),
                grid.size == size,
                grid.neibs@ == neibs,
                grid.nx == cfg.sx && grid.ny == cfg.sy && grid.nz == cfg.sz,
                grid.px == cfg.px && grid.py == cfg.py && grid.pz == cfg.pz,
                g0.nx == cfg.sx && g0.ny == cfg.sy && g0.nz == cfg.sz,
                crate::kernel::neibs_ok(neibs, size as int),
                items@.len() == i,
                total == total_n_cryst(items@),
                total <= i * size,
                forall|j: int| 0 <= j < i ==> state_ok((#[trigger] states@[j])@, size as int),
                forall|j: int|
                    0 <= j < i ==> {
                        &&& (#[trigger] items@[j]).wf(neibs)
                        &&& items@[j].cursor == Cursor::Idle
                        &&& items@[j].state@ == states@[j]@
                        &&& items@[j].item_gid == j
                        &&& items@[j].is_alive
                        &&& items@[j].front@ == scan_upto(
                            FrontierModel::empty(states@[j]@.len()),
                            states@[j]@,
                            neibs,
                            states@[j]@.len() as int,
                        )
                        &&& first_point(
                            items@[j].simlog,
                            &g0,
                            items@[j].front@.tpbs,
                            count_crystal(states@[j]@) as u64,
                        )
                    },
            decreases count - i,
        {
            if !state_valid(&states[i], size) {
                return Err(EnsembleError::InvalidData { item: i });
            }
            let mut item = Item::new(i, size);
            let n = item.load_state(grid.neibs.as_slice(), states[i].as_slice());
            proof {
                crate::item::lemma_count_bound(states@[i as int]@);
                lemma_table_len(neibs, size as int);
                assert((i + 1) * size <= count * size) by (nonlinear_arith)
                    requires
                        i + 1 <= count,
                        0 <= size,
                ;
                assert((i + 1) * size == i * size + size) by (nonlinear_arith);
            }
            let ghost gk = grid;
            let ghost loaded = item;
            item.write_action(&mut grid);
            proof {
                lemma_log_closed_dims(
                    loaded.simlog,
                    item.simlog,
                    &gk,
                    &g0,
                    loaded.front@.tpbs,
                    StepCtx { step_id: loaded.simlog.mk_step.val, is_write: true, ..loaded.ctx },
                );
                assert(item.simlog.n_cryst.log@ =~= seq![n as u64]);
                assert(item.simlog.cryst_sx.log@ =~= seq![item.simlog.cryst_sx.val]);
                assert(item.simlog.cryst_sy.log@ =~= seq![item.simlog.cryst_sy.val]);
                assert(item.simlog.cryst_sz.log@ =~= seq![item.simlog.cryst_sz.val]);
                assert(item.simlog.mk_step.log@ =~= seq![0u64]);
            }
            total = total + (n as u64);
            let ghost before = items@;
            items.push(item);
            proof {
                assert(items@.drop_last() =~= before);
            }
            i += 1;
        }
        simlog.n_cryst.val = total;
        simlog.add_log_point();
        proof {
            assert(simlog.n_cryst.log@ =~= seq![total]);
            assert(simlog.mk_step.log@ =~= seq![0u64]);
            assert forall|j: int| 0 <= j < count implies first_point(
                (#[trigger] items@[j]).simlog,
                &grid,
                items@[j].front@.tpbs,
                count_crystal(states@[j]@) as u64,
            ) by {
                lemma_first_point_dims(
                    items@[j].simlog,
                    &g0,
                    &grid,
                    items@[j].front@.tpbs,
                    count_crystal(states@[j]@) as u64,
                );
            }
        }
        Ok(Ensemble { cfg, rng, grid, items, simlog, items_len: count, items_len0: count })
    }

    /// Closes a global step when every replica has taken its step. The
    /// replicas that have ended leave the ensemble, each with its crystal
    /// measured and a last history point, and are handed to the caller; the
    /// others stay in their order. The log of the ensemble takes the sum of
    /// the crystal counts of the replicas that stay; when none stays or the
    /// step is a writing step, it records the step and takes a history
    /// point.
    pub fn settle_step(&mut self, step_id: u64, is_write: bool) -> (retired: Vec<Item>)
        requires
            old(self).wf(),
            old(self).at_rest(),
        ensures
            final(self).wf(),
            final(self).at_rest(),
            final(self).sum_ok(),
            final(self).items@ == alive_of(old(self).items@),
            retired@.len() == dead_of(old(self).items@).len(),
            forall|j: int|
                0 <= j < retired@.len() ==> finalized(
                    dead_of(old(self).items@)[j],
                    #[trigger] retired@[j],
                    &old(self).grid,
                ),
            final(self).cfg == old(self).cfg,
            final(self).items_len == old(self).items_len,
            final(self).items_len0 == old(self).items_len0,
            final(self).grid.neibs == old(self).grid.neibs,
            final(self).grid.nx == old(self).grid.nx && final(self).grid.ny == old(self).grid.ny
                && final(self).grid.nz == old(self).grid.nz,
            final(self).grid.px == old(self).grid.px && final(self).grid.py == old(self).grid.py
                && final(self).grid.pz == old(self).grid.pz,
            ensemble_logged(
                old(self).simlog,
                final(self).simlog,
                total_n_cryst(final(self).items@) as u64,
                step_id,
                final(self).items@.len() == 0 || is_write,
            ),
    {
        let ghost g0 = self.grid;
        let ghost neibs = self.grid.neibs@;
        let ghost size = self.grid.size as int;
        let mut olds: Vec<Item> = Vec::new();
        core::mem::swap(&mut self.items, &mut olds);
        let ghost all = olds@;
        let mut retired: Vec<Item> = Vec::new();
        let mut total: u64 = 0;
        proof {
            assert(all.take(0) =~= Seq::<Item>::empty());
            if all.len() > 0 {
                assert(all[0].wf(neibs));
                lemma_table_len(neibs, all[0].state@.len() as int);
            }
        }
        for item in it: olds.into_iter()
            invariant
                it.seq() == all,
                all.len() * size <= u64::MAX,
                forall|i: int| 0 <= i < all.len() ==> (#[trigger] all[i]).wf(neibs),
                forall|i: int| 0 <= i < all.len() ==> (#[trigger] all[i]).cursor == Cursor::Idle,
                self.grid.wf(),
                self.grid.neibs@ == neibs,
                self.grid.size == size,
                self.grid.neibs == g0.neibs,
                self.grid.nx == g0.nx && self.grid.ny == g0.ny && self.grid.nz == g0.nz,
                self.grid.px == g0.px && self.grid.py == g0.py && self.grid.pz == g0.pz,
                self.cfg == old(self).cfg,
                self.simlog == old(self).simlog,
                self.items_len == old(self).items_len,
                self.items_len0 == old(self).items_len0,
                self.items@ == alive_of(all.take(it.index() as int)),
                self.items@.len() <= it.index(),
                forall|i: int| 0 <= i < self.items@.len() ==> (#[trigger] self.items@[i]).wf(neibs),
                forall|i: int|
                    0 <= i < self.items@.len() ==> (#[trigger] self.items@[i]).cursor
                        == Cursor::Idle,
                total == total_n_cryst(self.items@),
                total <= self.items@.len() * size,
                retired@.len() == dead_of(all.take(it.index() as int)).len(),
                forall|j: int|
                    0 <= j < retired@.len() ==> finalized(
                        dead_of(all.take(it.index() as int))[j],
                        #[trigger] retired@[j],
                        &g0,
                    ),
        {
            let ghost k = it.index() as int;
            proof {
                assert(all.take(k + 1).drop_last() =~= all.take(k));
                assert(all.take(k + 1).last() == item);
                assert(all[k].wf(neibs));
                lemma_table_len(neibs, item.state@.len() as int);
                crate::item::lemma_count_bound(item.state@);
                assert((self.items@.len() + 1) * size <= all.len() * size) by (nonlinear_arith)
                    requires
                        self.items@.len() + 1 <= all.len(),
                        0 <= size,
                ;
                assert((self.items@.len() + 1) * size == self.items@.len() * size + size)
                    by (nonlinear_arith);
            }
            if item.is_alive {
                total = total + item.simlog.n_cryst.val;
                let ghost before = self.items@;
                self.items.push(item);
                proof {
                    assert(self.items@.drop_last() =~= before);
                }
            } else {
                let mut item = item;
                let ghost dead = item;
                let ghost gk = self.grid;
                item.write_action(&mut self.grid);
                proof {
                    lemma_log_closed_dims(
                        dead.simlog,
                        item.simlog,
                        &gk,
                        &g0,
                        dead.front@.tpbs,
                        StepCtx { step_id: dead.simlog.mk_step.val, is_write: true, ..dead.ctx },
                    );
                }
                let ghost before = retired@;
                retired.push(item);
                proof {
                    let deads = dead_of(all.take(k + 1));
                    assert(deads.drop_last() =~= dead_of(all.take(k)));
                    assert forall|j: int| 0 <= j < retired@.len() implies finalized(
                        deads[j],
                        #[trigger] retired@[j],
                        &g0,
                    ) by {
                        if j < before.len() {
                            assert(retired@[j] == before[j]);
                            assert(deads[j] == dead_of(all.take(k))[j]);
                        }
                    }
                }
            }
        }
        proof {
            assert(all.take(all.len() as int) =~= all);
            assert(self.items@.len() * size <= all.len() * size) by (nonlinear_arith)
                requires
                    self.items@.len() <= all.len(),
                    0 <= size,
            ;
        }
        self.simlog.n_cryst.val = total;
        if self.items.len() == 0 || is_write {
            self.simlog.mk_step.val = step_id;
            self.simlog.add_log_point();
        }
        retired
    }

    /// Ends the run at its last step: every replica that is left has its
    /// crystal measured, takes a last history point, and is marked as ended
    /// by the step limit.
    pub fn finish(&mut self)
        requires
            old(self).wf(),
            old(self).at_rest(),
        ensures
            final(self).wf(),
            final(self).at_rest(),
            final(self).grid.neibs == old(self).grid.neibs,
            final(self).cfg == old(self).cfg,
            final(self).simlog == old(self).simlog,
            final(self).items@.len() == old(self).items@.len(),
            forall|i: int|
                0 <= i < final(self).items@.len() ==> finalized(
                    Item {
                        is_alive: false,
                        status: if old(self).items@[i].is_alive {
                            Status::DeadLimit
                        } else {
                            old(self).items@[i].status
                        },
                        ..old(self).items@[i]
                    },
                    #[trigger] final(self).items@[i],
                    &old(self).grid,
                ),
    {
        let ghost g0 = self.grid;
        let ghost all = self.items@;
        let ghost neibs = self.grid.neibs@;
        let n = self.items.len();
        let mut i: usize = 0;
        while i < n
            invariant
                i <= n,
                n == all.len(),
                self.items@.len() == n,
                n * self.grid.size <= u64::MAX,
                self.grid.size == g0.size,
                forall|j: int| 0 <= j < all.len() ==> (#[trigger] all[j]).wf(neibs),
                forall|j: int| 0 <= j < all.len() ==> (#[trigger] all[j]).cursor == Cursor::Idle,
                forall|j: int| i <= j < n ==> self.items@[j] == all[j],
                forall|j: int|
                    0 <= j < i ==> (#[trigger] self.items@[j]).wf(neibs) && self.items@[j].cursor
                        == Cursor::Idle,
                self.grid.wf(),
                self.grid.neibs@ == neibs,
                self.grid.neibs == g0.neibs,
                self.grid.nx == g0.nx && self.grid.ny == g0.ny && self.grid.nz == g0.nz,
                self.cfg == old(self).cfg,
                self.simlog == old(self).simlog,
                forall|j: int|
                    0 <= j < i ==> finalized(
                        Item {
                            is_alive: false,
                            status: if all[j].is_alive {
                                Status::DeadLimit
                            } else {
                                all[j].status
                            },
                            ..all[j]
                        },
                        #[trigger] self.items@[j],
                        &g0,
                    ),
            decreases n - i,
        {
            proof {
                assert(all[i as int].wf(neibs));
                lemma_table_len(neibs, all[i as int].state@.len() as int);
            }
            let ghost gk = self.grid;
            let ghost before = self.items@;
            let item = &mut self.items[i];
            if item.is_alive {
                item.is_alive = false;
                item.status = Status::DeadLimit;
            }
            let ghost dead = *item;
            item.write_action(&mut self.grid);
            proof {
                lemma_log_closed_dims(
                    dead.simlog,
                    self.items@[i as int].simlog,
                    &gk,
                    &g0,
                    dead.front@.tpbs,
                    StepCtx { step_id: dead.simlog.mk_step.val, is_write: true, ..dead.ctx },
                );
                assert forall|j: int| 0 <= j < i implies finalized(
                    Item {
                        is_alive: false,
                        status: if all[j].is_alive {
                            Status::DeadLimit
                        } else {
                            all[j].status
                        },
                        ..all[j]
                    },
                    #[trigger] self.items@[j],
                    &g0,
                ) by {
                    assert(self.items@[j] == before[j]);
                }
            }
            i += 1;
        }
    }
}

} // verus!
