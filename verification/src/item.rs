//! A replica: one phase array with its interface index and its log, and the
//! step that proposes up to three events on it.
//!
//! Whether a proposed event is accepted depends on real-valued energies and
//! is decided by the caller. A step is therefore a dialogue: the replica
//! proposes an event, or asks whether a uniform ballistic event is due; the
//! caller answers; the replica applies an accepted event and proposes the
//! next one, until the step is done or the replica has ended.

use rand_chacha::ChaCha8Rng;
use vstd::prelude::*;
use crate::flip::{flip_model, flip_site};
use crate::frontier::{Frontier, FrontierModel};
use crate::kernel::{
    axis_crystals, compute_neighbor_sums, count_crystal, interface_ok,
    lemma_rows_in_range, lemma_table_len, neibs_ok, phases_ok, row_open, tags_sound, CRYSTAL, GAS,
};
use crate::lattice::Grid;
use crate::mode::{Ballistic, Mode};
use crate::rebuild::{rebuild_front, scan_upto};
use crate::rng::random_index;
use crate::state::{coords_taken, SimLog};

verus! {

/// The three events of a step, in the order in which a step takes them up.
#[derive(Clone, Copy, Debug, PartialEq, Eq, Structural)]
pub enum EventKind {
    /// A gas site next to the crystal becomes crystal.
    Attach,
    /// A crystal site next to the gas becomes gas.
    Detach,
    /// A crystal site next to the gas becomes gas without a thermal test.
    Ballistic,
}

/// The life of a replica.
#[derive(Clone, Copy, Debug, PartialEq, Eq, Structural)]
pub enum Status {
    Alive,
    /// The crystal has reached a face of the lattice that is not periodic.
    DeadBoundary,
    /// One side of the interface has no site left.
    DeadFrontier,
    /// The run has reached its last step.
    DeadLimit,
}

/// What a step is given: the mode, the number of the step, and what is due
/// at it.
#[derive(Clone, Copy, Debug)]
pub struct StepCtx {
    pub mode: Mode,
    pub step_id: u64,
    pub is_add: bool,
    pub is_rem: bool,
    pub is_write: bool,
}

/// Where a replica stands in its step: at rest, or waiting for the answer
/// to a proposal at the site named, or to the question whether a uniform
/// ballistic event is due.
#[derive(Clone, Copy, Debug, PartialEq, Eq, Structural)]
pub enum Cursor {
    Idle,
    Attach(usize),
    Detach(usize),
    Gate,
    Ballistic(usize),
}

/// A proposed event: its kind, its site, the number of crystal neighbours of
/// the site along x, y and z, and for each axis the sign with which the
/// surface energy quantum of that axis enters the surface energy change.
#[derive(Clone, Copy, Debug)]
pub struct Proposal {
    pub kind: EventKind,
    pub idxg: usize,
    pub sums: (u8, u8, u8),
    pub signs: (i8, i8, i8),
}

/// The answer to a proposal.
#[derive(Clone, Copy, Debug, PartialEq, Eq, Structural)]
pub enum Verdict {
    Accept,
    Reject,
    /// The event would make the concentration of the reservoir negative: it
    /// is counted and the step is given up.
    NegativeConcentration,
}

/// What a replica asks of the caller.
#[derive(Clone, Copy, Debug)]
pub enum Request {
    /// Decide on the proposal and answer with a verdict. A ballistic
    /// proposal of a uniform mode is not tested against the energy.
    Decide(Proposal),
    /// Say whether a uniform ballistic event takes place in this step.
    Gate,
    /// The step is over; the flag tells whether the replica is alive.
    Done(bool),
}

/// The sign with which the energy quantum of an axis enters the surface
/// energy change: on attachment plus when neither neighbour along the axis is
/// crystal and minus when both are; on detachment the opposite; zero when
/// exactly one is.
pub open spec fn spec_sign(count: u8, attach: bool) -> i8 {
    if count == 0 {
        if attach {
            1i8
        } else {
            -1i8
        }
    } else if count == 2 {
        if attach {
            -1i8
        } else {
            1i8
        }
    } else {
        0i8
    }
}

/// The sign with which the energy quantum of an axis enters the surface
/// energy change.
pub fn axis_sign(count: u8, attach: bool) -> (sign: i8)
    ensures
        sign == spec_sign(count, attach),
{
    if count == 0 {
        if attach {
            1
        } else {
            -1
        }
    } else if count == 2 {
        if attach {
            -1
        } else {
            1
        }
    } else {
        0
    }
}

/// The phase that the site of an event takes.
pub open spec fn target_phase(kind: EventKind) -> u8 {
    if kind == EventKind::Attach {
        CRYSTAL
    } else {
        GAS
    }
}

/// The site of an event of this kind can be `g`: a member of `GasAdj` for an
/// attachment, of `CrystalAdj` otherwise.
pub open spec fn target_ok(m: FrontierModel, kind: EventKind, g: int) -> bool {
    if kind == EventKind::Attach {
        m.in_gas_adj(g)
    } else {
        m.in_crystal_adj(g)
    }
}

/// The proposal names a site that its kind can take, with the neighbour
/// counts of that site and the signs that follow from them.
pub open spec fn proposal_ok(
    p: Proposal,
    state: Seq<u8>,
    neibs: Seq<[usize; 6]>,
    m: FrontierModel,
) -> bool {
    &&& target_ok(m, p.kind, p.idxg as int)
    &&& p.sums.0 == axis_crystals(state, neibs[p.idxg as int]@, 0)
    &&& p.sums.1 == axis_crystals(state, neibs[p.idxg as int]@, 1)
    &&& p.sums.2 == axis_crystals(state, neibs[p.idxg as int]@, 2)
    &&& p.signs.0 == spec_sign(p.sums.0, p.kind == EventKind::Attach)
    &&& p.signs.1 == spec_sign(p.sums.1, p.kind == EventKind::Attach)
    &&& p.signs.2 == spec_sign(p.sums.2, p.kind == EventKind::Attach)
}

/// The first part of a step, counted from `stage`, that is due: 0 for
/// attachment, 1 for detachment, 2 for the ballistic event, 3 for the end of
/// the step.
pub open spec fn next_stage(ctx: StepCtx, stage: int) -> int {
    if stage <= 0 && ctx.is_add {
        0
    } else if stage <= 1 && ctx.is_rem {
        1
    } else if stage <= 2 && ctx.mode.spec_ballistic() != Ballistic::Off {
        2
    } else {
        3
    }
}

/// Every event that is due from `stage` on finds a site to choose from.
pub open spec fn reserve(ctx: StepCtx, m: FrontierModel, stage: int) -> bool {
    &&& stage <= 0 && ctx.is_add ==> m.tpas.len() > 0
    &&& (stage <= 1 && ctx.is_rem) || (stage <= 2 && ctx.mode.spec_ballistic() != Ballistic::Off)
        ==> m.tpbs.len() > 0
}

/// The part of the step that a waiting replica is in.
pub open spec fn cursor_stage(cursor: Cursor) -> int {
    match cursor {
        Cursor::Idle => 3,
        Cursor::Attach(_) => 0,
        Cursor::Detach(_) => 1,
        Cursor::Gate => 2,
        Cursor::Ballistic(_) => 2,
    }
}

/// The event that a waiting replica has proposed.
pub open spec fn cursor_event(cursor: Cursor) -> (EventKind, int) {
    match cursor {
        Cursor::Attach(g) => (EventKind::Attach, g as int),
        Cursor::Detach(g) => (EventKind::Detach, g as int),
        Cursor::Ballistic(g) => (EventKind::Ballistic, g as int),
        _ => (EventKind::Attach, -1),
    }
}

/// The history of a scalar after a point with value `val` is taken.
pub open spec fn logged<T: Copy>(log: Seq<T>, is_on: bool, val: T) -> Seq<T> {
    if is_on {
        log.push(val)
    } else {
        log
    }
}

/// The log at the end of a step: the step is recorded, and on a writing
/// step the crystal is measured and a history point is taken.
pub open spec fn log_closed(
    pre: SimLog,
    post: SimLog,
    grid: &Grid,
    members: Seq<usize>,
    ctx: StepCtx,
) -> bool {
    let sx = coords_taken(grid, members, 0, grid.nx as int);
    let sy = coords_taken(grid, members, 1, grid.ny as int);
    let sz = coords_taken(grid, members, 2, grid.nz as int);
    &&& post.conc_neg_count == pre.conc_neg_count
    &&& post.n_cryst.val == pre.n_cryst.val && post.n_cryst.is_on == pre.n_cryst.is_on
    &&& post.cryst_sx.is_on == pre.cryst_sx.is_on
    &&& post.cryst_sy.is_on == pre.cryst_sy.is_on
    &&& post.cryst_sz.is_on == pre.cryst_sz.is_on
    &&& post.mk_step.val == ctx.step_id && post.mk_step.is_on == pre.mk_step.is_on
    &&& if ctx.is_write {
        &&& post.cryst_sx.val == sx
        &&& post.cryst_sy.val == sy
        &&& post.cryst_sz.val == sz
        &&& post.n_cryst.log@ == logged(pre.n_cryst.log@, pre.n_cryst.is_on, pre.n_cryst.val)
        &&& post.cryst_sx.log@ == logged(pre.cryst_sx.log@, pre.cryst_sx.is_on, post.cryst_sx.val)
        &&& post.cryst_sy.log@ == logged(pre.cryst_sy.log@, pre.cryst_sy.is_on, post.cryst_sy.val)
        &&& post.cryst_sz.log@ == logged(pre.cryst_sz.log@, pre.cryst_sz.is_on, post.cryst_sz.val)
        &&& post.mk_step.log@ == logged(pre.mk_step.log@, pre.mk_step.is_on, ctx.step_id)
    } else {
        &&& post.cryst_sx == pre.cryst_sx
        &&& post.cryst_sy == pre.cryst_sy
        &&& post.cryst_sz == pre.cryst_sz
        &&& post.n_cryst.log == pre.n_cryst.log
        &&& post.mk_step.log == pre.mk_step.log
    }
}

/// What a step in `mode` at `step_id` is given, `flags` telling whether
/// attachment, detachment and writing are due.
pub open spec fn step_of(mode: Mode, step_id: u64, flags: (bool, bool, bool)) -> StepCtx {
    StepCtx { mode, step_id, is_add: flags.0, is_rem: flags.1, is_write: flags.2 }
}

/// The number of crystal sites is at most the number of sites.
pub proof fn lemma_count_bound(state: Seq<u8>)
    ensures
        count_crystal(state) <= state.len(),
    decreases state.len(),
{
    if state.len() > 0 {
        lemma_count_bound(state.drop_last());
    }
}

/// A replica: its number in the ensemble, its phase array, its interface
/// index and its log, whether it is alive and how it ended, and where it
/// stands in its step.
#[derive(Debug)]
pub struct Item {
    pub item_gid: usize,
    pub is_alive: bool,
    pub status: Status,
    pub state: Vec<u8>,
    pub front: Frontier,
    pub simlog: SimLog,
    pub cursor: Cursor,
    pub ctx: StepCtx,
}

impl Item {
    /// What holds of a replica at any time: the index is consistent and
    /// covers the phase array, every site is gas or crystal, the members of
    /// each set have the phase of their set, and the log holds the number of
    /// crystal sites.
    pub open spec fn base_ok(&self, neibs: Seq<[usize; 6]>) -> bool {
        &&& neibs_ok(neibs, self.state@.len() as int)
        &&& self.front.wf()
        &&& self.front@.n() == self.state@.len()
        &&& phases_ok(self.state@)
        &&& tags_sound(self.state@, self.front@)
        &&& self.simlog.n_cryst.val == count_crystal(self.state@)
        &&& self.is_alive == (self.status == Status::Alive)
    }

    /// A living replica: besides `base_ok`, the index holds the interface of
    /// the phase array.
    pub open spec fn ready(&self, neibs: Seq<[usize; 6]>) -> bool {
        &&& self.base_ok(neibs)
        &&& self.is_alive
        &&& interface_ok(self.state@, neibs, self.front@)
    }

    /// A replica between two calls: `base_ok`; a living replica holds the
    /// interface; and a replica that waits for an answer is alive, has
    /// proposed a site that its event can take, and has sites to choose from
    /// for the rest of its step.
    pub open spec fn wf(&self, neibs: Seq<[usize; 6]>) -> bool {
        &&& self.base_ok(neibs)
        &&& self.is_alive ==> interface_ok(self.state@, neibs, self.front@)
        &&& self.cursor != Cursor::Idle ==> {
            &&& self.is_alive
            &&& reserve(self.ctx, self.front@, cursor_stage(self.cursor) + 1)
            &&& if self.cursor == Cursor::Gate {
                self.ctx.mode.spec_ballistic() == Ballistic::Uniform && self.front@.tpbs.len() > 0
            } else {
                target_ok(self.front@, cursor_event(self.cursor).0, cursor_event(self.cursor).1)
            }
        }
    }

    /// What a step has reached when it goes on from `stage`: the first event
    /// that is due is proposed at a site that it can take, or the question of
    /// the uniform ballistic event is put, in both cases with the log as it
    /// was; or the step is closed.
    pub open spec fn arrived(
        &self,
        neibs: Seq<[usize; 6]>,
        grid: &Grid,
        pre_log: SimLog,
        request: Request,
        stage: int,
    ) -> bool {
        let to = next_stage(self.ctx, stage);
        if to == 3 {
            &&& request matches Request::Done(alive) && alive
            &&& self.cursor == Cursor::Idle
            &&& log_closed(pre_log, self.simlog, grid, self.front@.tpbs, self.ctx)
        } else if to == 2 && self.ctx.mode.spec_ballistic() == Ballistic::Uniform {
            &&& request is Gate
            &&& self.cursor == Cursor::Gate
            &&& self.simlog == pre_log
        } else {
            &&& request matches Request::Decide(p) && proposal_ok(p, self.state@, neibs, self.front@)
                && cursor_event(self.cursor) == (p.kind, p.idxg as int) && cursor_stage(
                self.cursor,
            ) == to && self.cursor != Cursor::Gate && self.cursor != Cursor::Idle
            &&& self.simlog == pre_log
        }
    }

    /// A replica over `size` gas sites, with an empty index and log.
    pub fn new(item_gid: usize, size: usize) -> (item: Self)
        ensures
            item.item_gid == item_gid,
            item.is_alive,
            item.status == Status::Alive,
            item.cursor == Cursor::Idle,
            item.state@ == Seq::new(size as nat, |i: int| GAS),
            item.front.wf(),
            item.front@ == FrontierModel::empty(size as nat),
            item.simlog.is_fresh(),
            item.ctx == (StepCtx {
                mode: Mode::M11,
                step_id: 0,
                is_add: false,
                is_rem: false,
                is_write: false,
            }),
    {
        let mut state: Vec<u8> = Vec::new();
        let mut i: usize = 0;
        while i < size
            invariant
                i <= size,
                state@.len() == i,
                forall|j: int| 0 <= j < i ==> state@[j] == GAS,
            decreases size - i,
        {
            state.push(0);
            i += 1;
        }
        assert(state@ =~= Seq::new(size as nat, |i: int| GAS));
        Self {
            item_gid,
            is_alive: true,
            status: Status::Alive,
            state,
            front: Frontier::new(size),
            simlog: SimLog::new(),
            cursor: Cursor::Idle,
            ctx: StepCtx {
                mode: Mode::M11,
                step_id: 0,
                is_add: false,
                is_rem: false,
                is_write: false,
            },
        }
    }

    /// Whether one side of the interface has no site.
    pub fn is_front_empty(&self) -> (empty: bool)
        requires
            self.front.wf(),
        ensures
            empty == (self.front@.tpas.len() == 0 || self.front@.tpbs.len() == 0),
    {
        self.front.tpa_size() == 0 || self.front.tpb_size() == 0
    }

    /// Ends the replica because one side of its interface is empty, at step
    /// `step_id`.
    pub fn handle_stalled_front(&mut self, step_id: u64)
        ensures
            *final(self) == (Item {
                is_alive: false,
                status: Status::DeadFrontier,
                simlog: SimLog {
                    mk_step: crate::state::LogEntry {
                        val: step_id,
                        log: old(self).simlog.mk_step.log,
                        is_on: old(self).simlog.mk_step.is_on,
                    },
                    ..old(self).simlog
                },
                ..*old(self)
            }),
    {
        self.simlog.mk_step.val = step_id;
        self.is_alive = false;
        self.status = Status::DeadFrontier;
    }

    /// Ends the replica because its crystal has reached an open face of the
    /// lattice, at step `step_id`.
    pub fn handle_stalled_boundary(&mut self, step_id: u64)
        ensures
            *final(self) == (Item {
                is_alive: false,
                status: Status::DeadBoundary,
                simlog: SimLog {
                    mk_step: crate::state::LogEntry {
                        val: step_id,
                        log: old(self).simlog.mk_step.log,
                        is_on: old(self).simlog.mk_step.is_on,
                    },
                    ..old(self).simlog
                },
                ..*old(self)
            }),
    {
        self.simlog.mk_step.val = step_id;
        self.is_alive = false;
        self.status = Status::DeadBoundary;
    }

    /// Measures the crystal and takes a history point.
    pub fn write_action(&mut self, grid: &mut Grid)
        requires
            old(grid).wf(),
            old(self).front.wf(),
            old(self).front@.n() == old(grid).size,
        ensures
            final(grid).wf(),
            final(grid).neibs == old(grid).neibs,
            final(grid).nx == old(grid).nx && final(grid).ny == old(grid).ny && final(grid).nz
                == old(grid).nz,
            final(grid).px == old(grid).px && final(grid).py == old(grid).py && final(grid).pz
                == old(grid).pz,
            final(self).state == old(self).state,
            final(self).front == old(self).front,
            final(self).is_alive == old(self).is_alive,
            final(self).status == old(self).status,
            final(self).cursor == old(self).cursor,
            final(self).ctx == old(self).ctx,
            final(self).item_gid == old(self).item_gid,
            log_closed(
                old(self).simlog,
                final(self).simlog,
                old(grid),
                old(self).front@.tpbs,
                StepCtx { step_id: old(self).simlog.mk_step.val, is_write: true, ..old(self).ctx },
            ),
    {
        self.simlog.measure_cryst_sizes(grid, &self.front);
        self.simlog.add_log_point();
    }

    /// Gives the replica its phase array and builds the interface index from
    /// it. Returns the number of crystal sites, which the log takes over.
    pub fn load_state(&mut self, neibs: &[[usize; 6]], data: &[u8]) -> (cluster_size: usize)
        requires
            neibs_ok(neibs@, data@.len() as int),
            phases_ok(data@),
            old(self).state@.len() == data@.len(),
            old(self).front.wf(),
            old(self).front@ == FrontierModel::empty(data@.len()),
            old(self).is_alive,
            old(self).status == Status::Alive,
        ensures
            final(self).state@ == data@,
            final(self).front@ == scan_upto(
                FrontierModel::empty(data@.len()),
                data@,
                neibs@,
                data@.len() as int,
            ),
            cluster_size == count_crystal(data@),
            final(self).simlog.n_cryst.val == cluster_size,
            final(self).ready(neibs@),
            final(self).item_gid == old(self).item_gid,
            final(self).cursor == old(self).cursor,
            final(self).ctx == old(self).ctx,
            final(self).simlog.conc_neg_count == old(self).simlog.conc_neg_count,
            final(self).simlog.mk_step == old(self).simlog.mk_step,
            final(self).simlog.cryst_sx == old(self).simlog.cryst_sx,
            final(self).simlog.cryst_sy == old(self).simlog.cryst_sy,
            final(self).simlog.cryst_sz == old(self).simlog.cryst_sz,
            final(self).simlog.n_cryst.log == old(self).simlog.n_cryst.log,
            final(self).simlog.n_cryst.is_on == old(self).simlog.n_cryst.is_on,
    {
        let n = data.len();
        let mut i: usize = 0;
        while i < n
            invariant
                i <= n,
                n == data@.len(),
                self.state@.len() == n,
                forall|j: int| 0 <= j < i ==> self.state@[j] == data@[j],
                self.front == old(self).front,
                self.simlog == old(self).simlog,
                self.item_gid == old(self).item_gid,
                self.cursor == old(self).cursor,
                self.ctx == old(self).ctx,
                self.is_alive == old(self).is_alive,
                self.status == old(self).status,
            decreases n - i,
        {
            self.state.set(i, data[i]);
            i += 1;
        }
        assert(self.state@ =~= data@);
        let cluster_size = rebuild_front(self.state.as_slice(), neibs, &mut self.front);
        proof {
            lemma_count_bound(data@);
        }
        self.simlog.n_cryst.val = cluster_size as u64;
        cluster_size
    }

    /// Proposes the event `kind` at the member in position `idxl` of the set
    /// that the event draws from, and waits for the answer.
    pub fn propose(&mut self, neibs: &[[usize; 6]], kind: EventKind, idxl: usize) -> (p: Proposal)
        requires
            old(self).ready(neibs@),
            idxl < (if kind == EventKind::Attach {
                old(self).front@.tpas.len()
            } else {
                old(self).front@.tpbs.len()
            }),
        ensures
            p.kind == kind,
            p.idxg == (if kind == EventKind::Attach {
                old(self).front@.tpas[idxl as int]
            } else {
                old(self).front@.tpbs[idxl as int]
            }),
            proposal_ok(p, old(self).state@, neibs@, old(self).front@),
            cursor_event(final(self).cursor) == (kind, p.idxg as int),
            final(self).cursor != Cursor::Idle && final(self).cursor != Cursor::Gate,
            cursor_stage(final(self).cursor) == (match kind {
                EventKind::Attach => 0int,
                EventKind::Detach => 1int,
                EventKind::Ballistic => 2int,
            }),
            *final(self) == (Item { cursor: final(self).cursor, ..*old(self) }),
    {
        let attach = match kind {
            EventKind::Attach => true,
            _ => false,
        };
        let idxg = if attach {
            self.front.tpa_at(idxl)
        } else {
            self.front.tpb_at(idxl)
        };
        proof {
            lemma_rows_in_range(neibs@, self.state@.len() as int, idxg as int);
        }
        let sums = compute_neighbor_sums(self.state.as_slice(), &neibs[idxg]);
        let signs = (axis_sign(sums.0, attach), axis_sign(sums.1, attach), axis_sign(sums.2, attach));
        self.cursor = match kind {
            EventKind::Attach => Cursor::Attach(idxg),
            EventKind::Detach => Cursor::Detach(idxg),
            EventKind::Ballistic => Cursor::Ballistic(idxg),
        };
        Proposal { kind, idxg, sums, signs }
    }

    /// Carries out the event `kind` at site `idxg`: the site changes phase,
    /// the index is repaired, and the log counts the crystal site gained or
    /// lost. Returns whether a neighbour slot of the site is `NONE`.
    pub fn apply_event(&mut self, neibs: &[[usize; 6]], kind: EventKind, idxg: usize) -> (boundary:
        bool)
        requires
            old(self).ready(neibs@),
            target_ok(old(self).front@, kind, idxg as int),
        ensures
            final(self).state@ == old(self).state@.update(idxg as int, target_phase(kind)),
            final(self).front@ == flip_model(
                old(self).front@,
                old(self).state@,
                neibs@,
                idxg as int,
                target_phase(kind),
            ),
            boundary == row_open(neibs@[idxg as int]@),
            final(self).simlog.n_cryst.val == old(self).simlog.n_cryst.val + (if kind
                == EventKind::Attach {
                1int
            } else {
                -1int
            }),
            final(self).simlog == (SimLog {
                n_cryst: crate::state::LogEntry {
                    val: final(self).simlog.n_cryst.val,
                    log: old(self).simlog.n_cryst.log,
                    is_on: old(self).simlog.n_cryst.is_on,
                },
                ..old(self).simlog
            }),
            final(self).base_ok(neibs@),
            kind != EventKind::Attach || !boundary ==> final(self).ready(neibs@),
            final(self).is_alive == old(self).is_alive,
            final(self).status == old(self).status,
            final(self).cursor == old(self).cursor,
            final(self).ctx == old(self).ctx,
            final(self).item_gid == old(self).item_gid,
    {
        let attach = match kind {
            EventKind::Attach => true,
            _ => false,
        };
        let to: u8 = if attach {
            1
        } else {
            0
        };
        let boundary = flip_site(&mut self.state, &mut self.front, neibs, idxg, to);
        proof {
            lemma_count_bound(self.state@);
            assert(self.state@.len() == self.state.len());
        }
        self.simlog.update_n_sizes(if attach {
            1
        } else {
            -1
        });
        boundary
    }

    /// Closes the step: the log records the step, and on a writing step the
    /// crystal is measured and a history point is taken.
    pub fn close_step(&mut self, grid: &mut Grid)
        requires
            old(grid).wf(),
            old(self).front.wf(),
            old(self).front@.n() == old(grid).size,
        ensures
            final(grid).wf(),
            final(grid).neibs == old(grid).neibs,
            final(grid).nx == old(grid).nx && final(grid).ny == old(grid).ny && final(grid).nz
                == old(grid).nz,
            final(grid).px == old(grid).px && final(grid).py == old(grid).py && final(grid).pz
                == old(grid).pz,
            final(self).state == old(self).state,
            final(self).front == old(self).front,
            final(self).is_alive == old(self).is_alive,
            final(self).status == old(self).status,
            final(self).ctx == old(self).ctx,
            final(self).item_gid == old(self).item_gid,
            final(self).cursor == Cursor::Idle,
            log_closed(
                old(self).simlog,
                final(self).simlog,
                old(grid),
                old(self).front@.tpbs,
                old(self).ctx,
            ),
    {
        self.simlog.mk_step.val = self.ctx.step_id;
        if self.ctx.is_write {
            self.write_action(grid);
        }
        self.cursor = Cursor::Idle;
    }

    /// Goes on with the step from `stage`: proposes the first event that is
    /// due at a site drawn from the generator, or asks whether the uniform
    /// ballistic event takes place, or closes the step.
    pub fn advance(&mut self, rng: &mut ChaCha8Rng, grid: &mut Grid, stage: u8) -> (request:
        Request)
        requires
            old(grid).wf(),
            old(self).ready(old(grid).neibs@),
            stage <= 3,
            reserve(old(self).ctx, old(self).front@, stage as int),
        ensures
            final(grid).wf(),
            final(grid).neibs == old(grid).neibs,
            final(grid).nx == old(grid).nx && final(grid).ny == old(grid).ny && final(grid).nz
                == old(grid).nz,
            final(grid).px == old(grid).px && final(grid).py == old(grid).py && final(grid).pz
                == old(grid).pz,
            final(self).state == old(self).state,
            final(self).front == old(self).front,
            final(self).is_alive,
            final(self).status == old(self).status,
            final(self).ctx == old(self).ctx,
            final(self).item_gid == old(self).item_gid,
            final(self).wf(old(grid).neibs@),
            final(self).arrived(
                old(grid).neibs@,
                old(grid),
                old(self).simlog,
                request,
                stage as int,
            ),
    {
        if stage == 0 && self.ctx.is_add {
            let idxl = random_index(rng, self.front.tpa_size());
            let p = self.propose(grid.neibs.as_slice(), EventKind::Attach, idxl);
            return Request::Decide(p);
        }
        if stage <= 1 && self.ctx.is_rem {
            let idxl = random_index(rng, self.front.tpb_size());
            let p = self.propose(grid.neibs.as_slice(), EventKind::Detach, idxl);
            return Request::Decide(p);
        }
        if stage <= 2 {
            match self.ctx.mode.ballistic() {
                Ballistic::Uniform => {
                    self.cursor = Cursor::Gate;
                    return Request::Gate;
                },
                Ballistic::Biased => {
                    let idxl = random_index(rng, self.front.tpb_size());
                    let p = self.propose(grid.neibs.as_slice(), EventKind::Ballistic, idxl);
                    return Request::Decide(p);
                },
                Ballistic::Off => {},
            }
        }
        proof {
            lemma_table_len(grid.neibs@, self.state@.len() as int);
        }
        self.close_step(grid);
        Request::Done(true)
    }

    /// Whether every event that is due in the step described by `ctx` finds a
    /// site to choose from.
    pub fn can_step(&self, ctx: StepCtx) -> (ok: bool)
        requires
            self.front.wf(),
        ensures
            ok == reserve(ctx, self.front@, 0),
    {
        let ballistic = match ctx.mode.ballistic() {
            Ballistic::Off => false,
            _ => true,
        };
        (!ctx.is_add || self.front.tpa_size() > 0) && (!(ctx.is_rem || ballistic)
            || self.front.tpb_size() > 0)
    }

    /// Starts the step described by `ctx` on a living replica at rest.
    pub fn begin_step(&mut self, rng: &mut ChaCha8Rng, grid: &mut Grid, ctx: StepCtx) -> (request:
        Request)
        requires
            old(grid).wf(),
            old(self).ready(old(grid).neibs@),
            old(self).cursor == Cursor::Idle,
            reserve(ctx, old(self).front@, 0),
        ensures
            final(grid).wf(),
            final(grid).neibs == old(grid).neibs,
            final(grid).nx == old(grid).nx && final(grid).ny == old(grid).ny && final(grid).nz
                == old(grid).nz,
            final(grid).px == old(grid).px && final(grid).py == old(grid).py && final(grid).pz
                == old(grid).pz,
            final(self).state == old(self).state,
            final(self).front == old(self).front,
            final(self).is_alive,
            final(self).status == Status::Alive,
            final(self).ctx == ctx,
            final(self).item_gid == old(self).item_gid,
            final(self).wf(old(grid).neibs@),
            final(self).arrived(old(grid).neibs@, old(grid), old(self).simlog, request, 0),
    {
        self.ctx = ctx;
        self.advance(rng, grid, 0)
    }

    /// Starts a step in mode 2.1: reservoir-coupled, without ballistic
    /// detachment. `flags` tells whether attachment, detachment and writing
    /// are due.
    pub fn mode_2_1_step(
        &mut self,
        rng: &mut ChaCha8Rng,
        grid: &mut Grid,
        step_id: u64,
        flags: (bool, bool, bool),
    ) -> (request: Request)
        requires
            old(grid).wf(),
            old(self).ready(old(grid).neibs@),
            old(self).cursor == Cursor::Idle,
            reserve(step_of(Mode::M21, step_id, flags), old(self).front@, 0),
        ensures
            final(grid).wf(),
            final(grid).neibs == old(grid).neibs,
            final(grid).nx == old(grid).nx && final(grid).ny == old(grid).ny && final(grid).nz
                == old(grid).nz,
            final(grid).px == old(grid).px && final(grid).py == old(grid).py && final(grid).pz
                == old(grid).pz,
            final(self).state == old(self).state,
            final(self).front == old(self).front,
            final(self).is_alive,
            final(self).status == Status::Alive,
            final(self).ctx == step_of(Mode::M21, step_id, flags),
            final(self).item_gid == old(self).item_gid,
            final(self).wf(old(grid).neibs@),
            final(self).arrived(old(grid).neibs@, old(grid), old(self).simlog, request, 0),
    {
        self.begin_step(
            rng,
            grid,
            StepCtx {
                mode: Mode::M21,
                step_id,
                is_add: flags.0,
                is_rem: flags.1,
                is_write: flags.2,
            },
        )
    }

    /// Starts a step in mode 2.2: reservoir-coupled, with uniform ballistic
    /// detachment.
    pub fn mode_2_2_step(
        &mut self,
        rng: &mut ChaCha8Rng,
        grid: &mut Grid,
        step_id: u64,
        flags: (bool, bool, bool),
    ) -> (request: Request)
        requires
            old(grid).wf(),
            old(self).ready(old(grid).neibs@),
            old(self).cursor == Cursor::Idle,
            reserve(step_of(Mode::M22, step_id, flags), old(self).front@, 0),
        ensures
            final(grid).wf(),
            final(grid).neibs == old(grid).neibs,
            final(grid).nx == old(grid).nx && final(grid).ny == old(grid).ny && final(grid).nz
                == old(grid).nz,
            final(grid).px == old(grid).px && final(grid).py == old(grid).py && final(grid).pz
                == old(grid).pz,
            final(self).state == old(self).state,
            final(self).front == old(self).front,
            final(self).is_alive,
            final(self).status == Status::Alive,
            final(self).ctx == step_of(Mode::M22, step_id, flags),
            final(self).item_gid == old(self).item_gid,
            final(self).wf(old(grid).neibs@),
            final(self).arrived(old(grid).neibs@, old(grid), old(self).simlog, request, 0),
    {
        self.begin_step(
            rng,
            grid,
            StepCtx {
                mode: Mode::M22,
                step_id,
                is_add: flags.0,
                is_rem: flags.1,
                is_write: flags.2,
            },
        )
    }

    /// Starts a step in mode 2.3: reservoir-coupled, with ballistic
    /// detachment biased by the surface energy change.
    pub fn mode_2_3_step(
        &mut self,
        rng: &mut ChaCha8Rng,
        grid: &mut Grid,
        step_id: u64,
        flags: (bool, bool, bool),
    ) -> (request: Request)
        requires
            old(grid).wf(),
            old(self).ready(old(grid).neibs@),
            old(self).cursor == Cursor::Idle,
            reserve(step_of(Mode::M23, step_id, flags), old(self).front@, 0),
        ensures
            final(grid).wf(),
            final(grid).neibs == old(grid).neibs,
            final(grid).nx == old(grid).nx && final(grid).ny == old(grid).ny && final(grid).nz
                == old(grid).nz,
            final(grid).px == old(grid).px && final(grid).py == old(grid).py && final(grid).pz
                == old(grid).pz,
            final(self).state == old(self).state,
            final(self).front == old(self).front,
            final(self).is_alive,
            final(self).status == Status::Alive,
            final(self).ctx == step_of(Mode::M23, step_id, flags),
            final(self).item_gid == old(self).item_gid,
            final(self).wf(old(grid).neibs@),
            final(self).arrived(old(grid).neibs@, old(grid), old(self).simlog, request, 0),
    {
        self.begin_step(
            rng,
            grid,
            StepCtx {
                mode: Mode::M23,
                step_id,
                is_add: flags.0,
                is_rem: flags.1,
                is_write: flags.2,
            },
        )
    }

    /// Takes the answer to the proposal that the replica waits on. An
    /// accepted event is carried out; the replica ends if a neighbour slot of
    /// the site is `NONE` or if a side of the interface is empty afterwards,
    /// and goes on with its step otherwise. After a rejection the step goes
    /// on with the phase array and the index as they were. A refusal for
    /// negative concentration is counted and ends the step with nothing else
    /// changed.
    pub fn answer(&mut self, rng: &mut ChaCha8Rng, grid: &mut Grid, verdict: Verdict) -> (request:
        Request)
        requires
            old(grid).wf(),
            old(self).wf(old(grid).neibs@),
            old(self).cursor != Cursor::Idle,
            old(self).cursor != Cursor::Gate,
            verdict == Verdict::NegativeConcentration ==> old(self).simlog.conc_neg_count
                < u64::MAX,
        ensures
            final(grid).wf(),
            final(grid).neibs == old(grid).neibs,
            final(grid).nx == old(grid).nx && final(grid).ny == old(grid).ny && final(grid).nz
                == old(grid).nz,
            final(grid).px == old(grid).px && final(grid).py == old(grid).py && final(grid).pz
                == old(grid).pz,
            final(self).wf(old(grid).neibs@),
            final(self).ctx == old(self).ctx,
            final(self).item_gid == old(self).item_gid,
            verdict == Verdict::Accept ==> accepted(
                old(self),
                final(self),
                old(grid),
                request,
            ),
            verdict == Verdict::Reject ==> {
                &&& final(self).state == old(self).state
                &&& final(self).front == old(self).front
                &&& final(self).is_alive
                &&& final(self).status == Status::Alive
                &&& final(self).arrived(
                    old(grid).neibs@,
                    old(grid),
                    old(self).simlog,
                    request,
                    cursor_stage(old(self).cursor) + 1,
                )
            },
            verdict == Verdict::NegativeConcentration ==> {
                &&& request matches Request::Done(alive) && alive
                &&& *final(self) == (Item {
                    cursor: Cursor::Idle,
                    simlog: SimLog {
                        conc_neg_count: (old(self).simlog.conc_neg_count + 1) as u64,
                        ..old(self).simlog
                    },
                    ..*old(self)
                })
            },
    {
        let (kind, idxg, stage) = match self.cursor {
            Cursor::Attach(g) => (EventKind::Attach, g, 0u8),
            Cursor::Detach(g) => (EventKind::Detach, g, 1u8),
            Cursor::Ballistic(g) => (EventKind::Ballistic, g, 2u8),
            _ => (EventKind::Attach, 0, 3u8),
        };
        match verdict {
            Verdict::Accept => {
                let boundary = self.apply_event(grid.neibs.as_slice(), kind, idxg);
                if boundary {
                    self.handle_stalled_boundary(self.ctx.step_id);
                    self.cursor = Cursor::Idle;
                    return Request::Done(false);
                }
                if self.is_front_empty() {
                    self.handle_stalled_front(self.ctx.step_id);
                    self.cursor = Cursor::Idle;
                    return Request::Done(false);
                }
                self.advance(rng, grid, stage + 1)
            },
            Verdict::Reject => self.advance(rng, grid, stage + 1),
            Verdict::NegativeConcentration => {
                self.simlog.note_negative_conc();
                self.cursor = Cursor::Idle;
                Request::Done(true)
            },
        }
    }

    /// Takes the answer to the question whether the uniform ballistic event
    /// takes place: if it does, the event is proposed at a site drawn from
    /// the generator; if not, the step is closed.
    pub fn answer_gate(&mut self, rng: &mut ChaCha8Rng, grid: &mut Grid, open: bool) -> (request:
        Request)
        requires
            old(grid).wf(),
            old(self).wf(old(grid).neibs@),
            old(self).cursor == Cursor::Gate,
        ensures
            final(grid).wf(),
            final(grid).neibs == old(grid).neibs,
            final(grid).nx == old(grid).nx && final(grid).ny == old(grid).ny && final(grid).nz
                == old(grid).nz,
            final(grid).px == old(grid).px && final(grid).py == old(grid).py && final(grid).pz
                == old(grid).pz,
            final(self).wf(old(grid).neibs@),
            final(self).state == old(self).state,
            final(self).front == old(self).front,
            final(self).is_alive,
            final(self).status == Status::Alive,
            final(self).ctx == old(self).ctx,
            final(self).item_gid == old(self).item_gid,
            open ==> {
                &&& request matches Request::Decide(p) && p.kind == EventKind::Ballistic
                    && proposal_ok(p, final(self).state@, old(grid).neibs@, final(self).front@)
                    && final(self).cursor == Cursor::Ballistic(p.idxg)
                &&& final(self).simlog == old(self).simlog
            },
            !open ==> {
                &&& request matches Request::Done(alive) && alive
                &&& final(self).cursor == Cursor::Idle
                &&& log_closed(
                    old(self).simlog,
                    final(self).simlog,
                    old(grid),
                    final(self).front@.tpbs,
                    final(self).ctx,
                )
            },
    {
        if open {
            let idxl = random_index(rng, self.front.tpb_size());
            let p = self.propose(grid.neibs.as_slice(), EventKind::Ballistic, idxl);
            Request::Decide(p)
        } else {
            proof {
                lemma_table_len(grid.neibs@, self.state@.len() as int);
            }
            self.close_step(grid);
            Request::Done(true)
        }
    }
}

/// What an accepted event leaves: the site has its new phase, the index is
/// repaired as `flip_model` says, the log counts the crystal site gained or
/// lost; the replica has ended at this step if the site has an open neighbour
/// slot or a side of the interface is empty, and has gone on with its step
/// otherwise.
pub open spec fn accepted(pre: &Item, post: &Item, grid: &Grid, request: Request) -> bool {
    let neibs = grid.neibs@;
    let (kind, g) = cursor_event(pre.cursor);
    let boundary = row_open(neibs[g]@);
    let empty = post.front@.tpas.len() == 0 || post.front@.tpbs.len() == 0;
    let counted = SimLog {
        n_cryst: crate::state::LogEntry {
            val: post.simlog.n_cryst.val,
            log: pre.simlog.n_cryst.log,
            is_on: pre.simlog.n_cryst.is_on,
        },
        ..pre.simlog
    };
    &&& post.state@ == pre.state@.update(g, target_phase(kind))
    &&& post.front@ == flip_model(pre.front@, pre.state@, neibs, g, target_phase(kind))
    &&& post.simlog.n_cryst.val == pre.simlog.n_cryst.val + (if kind == EventKind::Attach {
        1int
    } else {
        -1int
    })
    &&& if boundary || empty {
        &&& request matches Request::Done(alive) && !alive
        &&& !post.is_alive
        &&& post.status == (if boundary {
            Status::DeadBoundary
        } else {
            Status::DeadFrontier
        })
        &&& post.cursor == Cursor::Idle
        &&& post.simlog == (SimLog {
            mk_step: crate::state::LogEntry {
                val: pre.ctx.step_id,
                log: pre.simlog.mk_step.log,
                is_on: pre.simlog.mk_step.is_on,
            },
            ..counted
        })
    } else {
        &&& post.is_alive
        &&& post.status == Status::Alive
        &&& post.arrived(neibs, grid, counted, request, cursor_stage(pre.cursor) + 1)
    }
}

/// On a lattice that is periodic along all three axes an accepted event
/// never ends a replica at the boundary.
pub proof fn lemma_periodic_never_boundary(pre: &Item, post: &Item, grid: &Grid, request: Request)
    requires
        grid.wf(),
        grid.px && grid.py && grid.pz,
        pre.wf(grid.neibs@),
        pre.cursor != Cursor::Idle,
        pre.cursor != Cursor::Gate,
        accepted(pre, post, grid, request),
    ensures
        post.status != Status::DeadBoundary,
{
    let g = cursor_event(pre.cursor).1;
    lemma_table_len(grid.neibs@, pre.state@.len() as int);
    crate::kernel::lemma_periodic_rows_closed(grid, g);
}

} // verus!
