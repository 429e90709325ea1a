//! The simulation: two grids that trade places after every step, the
//! framebuffer, and the step itself, run task by task.

pub use crate::grid::{Cell, Grid};
use crate::grid::{Pair, Stencil};
use crate::partition::{
    chunk_ranges, lemma_owned_once, lemma_tasks_tile, task_count, task_end, task_of, task_start,
};
use core::ops::Range;
use vstd::prelude::*;

verus! {

/// Number of workers that a simulation is built for when none is given.
pub const WORKERS: usize = 16;

/// The six coefficients of the model: the diffusion rates of the two
/// species, the feed and kill rates, and the stencil weights of the four
/// orthogonal and the four diagonal neighbours.
#[derive(Debug)]
pub struct SimulationParams<S> {
    pub da: S,
    pub db: S,
    pub f: S,
    pub k: S,
    pub adj: S,
    pub diag: S,
}

impl<S: Copy> Clone for SimulationParams<S> {
    fn clone(&self) -> (copy: Self)
        ensures
            copy == *self,
    {
        *self
    }
}

impl<S: Copy> Copy for SimulationParams<S> {

}

/// What the update rule returns for one cell: its next concentrations and
/// the pixel that shows them.
#[derive(Debug)]
pub struct Update<S> {
    pub a: S,
    pub b: S,
    pub pixel: u32,
}

impl<S: Copy> Clone for Update<S> {
    fn clone(&self) -> (copy: Self)
        ensures
            copy == *self,
    {
        *self
    }
}

impl<S: Copy> Copy for Update<S> {

}

/// Two grids of equal size, the framebuffer and the coefficients.
#[derive(Debug)]
pub struct Simulation<S> {
    params: SimulationParams<S>,
    cur_grid: Grid<S>,
    nex_grid: Grid<S>,
    framebuffer: Vec<u32>,
    workers: usize,
    started: bool,
}

impl<S: Copy> Simulation<S> {
    /// The coefficients.
    pub closed spec fn spec_params(&self) -> SimulationParams<S> {
        self.params
    }

    /// The grid that holds the present state.
    pub closed spec fn current(&self) -> Grid<S> {
        self.cur_grid
    }

    /// The grid that the next step writes.
    pub closed spec fn standby(&self) -> Grid<S> {
        self.nex_grid
    }

    /// The framebuffer: one packed pixel per cell, in row-major order.
    pub closed spec fn pixels(&self) -> Seq<u32> {
        self.framebuffer@
    }

    /// Number of workers that a step is split for.
    pub closed spec fn spec_workers(&self) -> nat {
        self.workers as nat
    }

    /// Whether a step has been completed.
    pub closed spec fn has_started(&self) -> bool {
        self.started
    }

    /// Number of cells.
    pub open spec fn cell_count(&self) -> nat {
        self.current().values().len()
    }

    /// Both grids are well formed and of one size, the framebuffer has one
    /// pixel per cell, and there is at least one worker.
    pub open spec fn wf(&self) -> bool {
        &&& self.current().wf()
        &&& self.standby().wf()
        &&& self.standby().spec_width() == self.current().spec_width()
        &&& self.standby().spec_height() == self.current().spec_height()
        &&& self.pixels().len() == self.cell_count()
        &&& self.spec_workers() >= 1
    }

    /// Builds a simulation for `workers` workers on a `width` by `height`
    /// grid whose every cell holds the concentrations `a` and `b`. The
    /// framebuffer starts black.
    pub fn with_workers(
        params: SimulationParams<S>,
        width: usize,
        height: usize,
        a: S,
        b: S,
        workers: usize,
    ) -> (sim: Self)
        requires
            width >= 1,
            height >= 1,
            width * height <= usize::MAX,
            workers >= 1,
        ensures
            sim.wf(),
            sim.spec_params() == params,
            sim.spec_workers() == workers,
            !sim.has_started(),
            sim.current().spec_width() == width,
            sim.current().spec_height() == height,
            sim.current().values() == Seq::new((width * height) as nat, |i: int| Pair { a, b }),
            sim.standby().values() == sim.current().values(),
            sim.pixels() == Seq::new((width * height) as nat, |i: int| 0u32),
    {
        let count: usize = width * height;
        let mut framebuffer: Vec<u32> = Vec::new();
        let mut i: usize = 0;
        while i < count
            invariant
                i <= count,
                framebuffer@.len() == i,
                forall|j: int| 0 <= j < i ==> framebuffer@[j] == 0u32,
            decreases count - i,
        {
            framebuffer.push(0u32);
            i += 1;
        }
        let sim = Simulation {
            params,
            cur_grid: Grid::new(width, height, a, b),
            nex_grid: Grid::new(width, height, a, b),
            framebuffer,
            workers,
            started: false,
        };
        assert(sim.pixels() =~= Seq::new((width * height) as nat, |i: int| 0u32));
        sim
    }

    /// Builds a simulation with the six coefficients given one by one, for
    /// the default number of workers.
    pub fn new(
        da: S,
        db: S,
        f: S,
        k: S,
        adj: S,
        diag: S,
        width: usize,
        height: usize,
        a: S,
        b: S,
    ) -> (sim: Self)
        requires
            width >= 1,
            height >= 1,
            width * height <= usize::MAX,
        ensures
            sim.wf(),
            sim.spec_params() == (SimulationParams { da, db, f, k, adj, diag }),
            sim.spec_workers() == WORKERS,
            !sim.has_started(),
            sim.current().spec_width() == width,
            sim.current().spec_height() == height,
            sim.current().values() == Seq::new((width * height) as nat, |i: int| Pair { a, b }),
            sim.standby().values() == sim.current().values(),
            sim.pixels() == Seq::new((width * height) as nat, |i: int| 0u32),
    {
        Self::with_workers(
            SimulationParams { da, db, f, k, adj, diag },
            width,
            height,
            a,
            b,
            WORKERS,
        )
    }

    /// The coefficients.
    pub fn params(&self) -> (params: SimulationParams<S>)
        ensures
            params == self.spec_params(),
    {
        self.params
    }

    /// The grid that holds the present state.
    pub fn grid(&self) -> (grid: &Grid<S>)
        ensures
            *grid == self.current(),
    {
        &self.cur_grid
    }

    /// The framebuffer, one packed pixel per cell in row-major order.
    pub fn framebuffer(&self) -> (pixels: &Vec<u32>)
        ensures
            pixels@ == self.pixels(),
    {
        &self.framebuffer
    }

    /// Number of workers that a step is split for.
    pub fn workers(&self) -> (workers: usize)
        ensures
            workers == self.spec_workers(),
    {
        self.workers
    }

    /// Whether a step has been completed.
    pub fn started(&self) -> (started: bool)
        ensures
            started == self.has_started(),
    {
        self.started
    }
}

/// Computes the updates of the cells of one task. It reads the grid `cur`
/// and nothing else, and hands back one update per index of `range`, in
/// order.
pub fn gen_job<S: Copy, F: Fn(SimulationParams<S>, Stencil<S>) -> Update<S>>(
    cur: &Grid<S>,
    range: Range<usize>,
    params: SimulationParams<S>,
    kernel: &F,
) -> (updates: Vec<Update<S>>)
    requires
        cur.wf(),
        range.start < range.end ==> range.end <= cur.values().len(),
        forall|i: int|
            range.start <= i < range.end ==> call_requires(
                *kernel,
                (params, #[trigger] cur.stencil_at(i)),
            ),
    ensures
        updates@.len() == (if range.start < range.end {
            range.end - range.start
        } else {
            0
        }),
        forall|j: int|
            0 <= j < updates@.len() ==> call_ensures(
                *kernel,
                (params, cur.stencil_at(range.start + j)),
                #[trigger] updates@[j],
            ),
{
    let mut updates: Vec<Update<S>> = Vec::new();
    let mut i: usize = range.start;
    while i < range.end
        invariant
            cur.wf(),
            range.start < range.end ==> range.end <= cur.values().len(),
            range.start <= i,
            range.start < range.end ==> i <= range.end,
            range.start >= range.end ==> i == range.start,
            updates@.len() == i - range.start,
            forall|i: int|
                range.start <= i < range.end ==> call_requires(
                    *kernel,
                    (params, #[trigger] cur.stencil_at(i)),
                ),
            forall|j: int|
                0 <= j < updates@.len() ==> call_ensures(
                    *kernel,
                    (params, cur.stencil_at(range.start + j)),
                    #[trigger] updates@[j],
                ),
        decreases range.end - i,
    {
        let stencil: Stencil<S> = cur.stencil(i);
        let update: Update<S> = kernel(params, stencil);
        updates.push(update);
        i += 1;
    }
    updates
}

/// Why a step could not be completed.
#[derive(Clone, Copy, Debug, PartialEq, Eq)]
pub enum StepError {
    /// The number of task outputs is not the number of tasks of the step.
    TaskCount,
    /// The task of this number handed back nothing, or not one update per
    /// index of its range; no task before it did.
    TaskFailed(usize),
}

/// Why a concentration could not be set.
#[derive(Clone, Copy, Debug, PartialEq, Eq)]
pub enum SeedError {
    /// A step has been completed already.
    Started,
    /// There is no cell of this index.
    OutOfRange,
}

/// Index of the cell that seeding perturbs: half the cell count plus half the
/// width, taken around the end of the grid where that is no cell.
pub open spec fn seed_index(width: nat, height: nat) -> nat {
    ((width * height) / 2 + width / 2) % (width * height)
}

/// Whether the output of task `t` is there and holds one update per index of
/// the task's range.
pub open spec fn output_fits<S>(
    outputs: Seq<Option<Vec<Update<S>>>>,
    cells: nat,
    workers: nat,
    t: nat,
) -> bool {
    outputs[t as int] is Some && outputs[t as int].unwrap()@.len() == task_end(cells, workers, t)
        - task_start(cells, workers, t)
}

/// The update that the task outputs hold for cell `i`.
pub open spec fn joined<S>(
    outputs: Seq<Option<Vec<Update<S>>>>,
    cells: nat,
    workers: nat,
    i: nat,
) -> Update<S> {
    let t = task_of(cells, workers, i);
    outputs[t as int].unwrap()@[i - task_start(cells, workers, t)]
}

/// Writes the updates of one task into the task's own range of the grid
/// `nex` and of the framebuffer. Nothing outside that range changes.
fn store<S: Copy>(
    nex: &mut Grid<S>,
    framebuffer: &mut Vec<u32>,
    start: usize,
    updates: &Vec<Update<S>>,
)
    requires
        old(nex).wf(),
        old(framebuffer)@.len() == old(nex).values().len(),
        start + updates@.len() <= old(nex).values().len(),
    ensures
        final(nex).wf(),
        final(nex).spec_width() == old(nex).spec_width(),
        final(nex).spec_height() == old(nex).spec_height(),
        final(framebuffer)@.len() == old(framebuffer)@.len(),
        forall|i: int|
            start <= i < start + updates@.len() ==> (#[trigger] final(nex).values()[i]) == (Pair {
                a: updates@[i - start].a,
                b: updates@[i - start].b,
            }) && final(framebuffer)@[i] == updates@[i - start].pixel,
        forall|i: int|
            0 <= i < old(nex).values().len() && !(start <= i < start + updates@.len()) ==> (
            #[trigger] final(nex).values()[i]) == old(nex).values()[i] && final(framebuffer)@[i]
                == old(framebuffer)@[i],
{
    let mut j: usize = 0;
    while j < updates.len()
        invariant
            j <= updates@.len(),
            nex.wf(),
            nex.spec_width() == old(nex).spec_width(),
            nex.spec_height() == old(nex).spec_height(),
            nex.values().len() == old(nex).values().len(),
            framebuffer@.len() == old(framebuffer)@.len(),
            framebuffer@.len() == nex.values().len(),
            start + updates@.len() <= nex.values().len(),
            forall|i: int|
                start <= i < start + j ==> (#[trigger] nex.values()[i]) == (Pair {
                    a: updates@[i - start].a,
                    b: updates@[i - start].b,
                }) && framebuffer@[i] == updates@[i - start].pixel,
            forall|i: int|
                0 <= i < nex.values().len() && !(start <= i < start + j) ==> (
                #[trigger] nex.values()[i]) == old(nex).values()[i] && framebuffer@[i] == old(
                    framebuffer,
                )@[i],
        decreases updates@.len() - j,
    {
        let update: Update<S> = updates[j];
        let ghost values = nex.values();
        let ghost pixels = framebuffer@;
        nex.set(start + j, Pair { a: update.a, b: update.b });
        framebuffer.set(start + j, update.pixel);
        proof {
            assert forall|i: int| start <= i < start + j + 1 implies (#[trigger] nex.values()[i])
                == (Pair { a: updates@[i - start].a, b: updates@[i - start].b })
                && framebuffer@[i] == updates@[i - start].pixel by {
                if i < start + j {
                    assert(nex.values()[i] == values[i]);
                    assert(framebuffer@[i] == pixels[i]);
                }
            }
            assert forall|i: int|
                0 <= i < nex.values().len() && !(start <= i < start + j + 1) implies (
            #[trigger] nex.values()[i]) == old(nex).values()[i] && framebuffer@[i] == old(
                framebuffer,
            )@[i] by {
                assert(nex.values()[i] == values[i]);
                assert(framebuffer@[i] == pixels[i]);
            }
        }
        j += 1;
    }
}

impl<S: Copy> Simulation<S> {
    /// What cell `i` shows: its concentrations and its pixel.
    pub open spec fn update_at(&self, i: int) -> Update<S> {
        Update {
            a: self.current().values()[i].a,
            b: self.current().values()[i].b,
            pixel: self.pixels()[i],
        }
    }

    /// Coefficients, worker count and grid size are those of `pre`.
    pub open spec fn same_setup(&self, pre: Self) -> bool {
        &&& self.spec_params() == pre.spec_params()
        &&& self.spec_workers() == pre.spec_workers()
        &&& self.current().spec_width() == pre.current().spec_width()
        &&& self.current().spec_height() == pre.current().spec_height()
    }

    /// `post` is this simulation one step later under the rule `kernel`:
    /// every cell and its pixel are what the rule returns for the cell's
    /// stencil in this simulation, and the grids have traded places.
    pub open spec fn steps_to<F: Fn(SimulationParams<S>, Stencil<S>) -> Update<S>>(
        &self,
        post: Self,
        kernel: F,
    ) -> bool {
        &&& post.wf()
        &&& post.same_setup(*self)
        &&& post.has_started()
        &&& post.standby().values() == self.current().values()
        &&& forall|i: int|
            0 <= i < self.cell_count() ==> call_ensures(
                kernel,
                (self.spec_params(), self.current().stencil_at(i)),
                #[trigger] post.update_at(i),
            )
    }

    /// Trades the places of the two grids.
    fn swap(&mut self)
        ensures
            final(self).current() == old(self).standby(),
            final(self).standby() == old(self).current(),
            final(self).spec_params() == old(self).spec_params(),
            final(self).spec_workers() == old(self).spec_workers(),
            final(self).pixels() == old(self).pixels(),
            final(self).has_started() == old(self).has_started(),
    {
        core::mem::swap(&mut self.cur_grid, &mut self.nex_grid);
    }

    /// The tasks of one step, in order.
    pub fn tasks(&self) -> (tasks: Vec<Range<usize>>)
        requires
            self.wf(),
        ensures
            tasks@.len() == task_count(self.cell_count(), self.spec_workers()),
            forall|t: int|
                0 <= t < tasks@.len() ==> (#[trigger] tasks@[t]).start == task_start(
                    self.cell_count(),
                    self.spec_workers(),
                    t as nat,
                ) && tasks@[t].end == task_end(self.cell_count(), self.spec_workers(), t as nat),
    {
        chunk_ranges(self.cur_grid.len(), self.workers)
    }

    /// Joins a step: takes the output of every task, in task order, writes
    /// each into its own range of the standby grid and of the framebuffer,
    /// and trades the places of the grids. One missing or misshapen output
    /// fails the whole step and leaves the simulation as it was.
    pub fn complete(&mut self, outputs: Vec<Option<Vec<Update<S>>>>) -> (done: Result<
        (),
        StepError,
    >)
        requires
            old(self).wf(),
        ensures
            match done {
                Ok(()) => {
                    &&& outputs@.len() == task_count(
                        old(self).cell_count(),
                        old(self).spec_workers(),
                    )
                    &&& forall|t: nat|
                        t < outputs@.len() ==> #[trigger] output_fits(
                            outputs@,
                            old(self).cell_count(),
                            old(self).spec_workers(),
                            t,
                        )
                    &&& final(self).wf()
                    &&& final(self).same_setup(*old(self))
                    &&& final(self).has_started()
                    &&& final(self).standby().values() == old(self).current().values()
                    &&& forall|i: int|
                        0 <= i < old(self).cell_count() ==> #[trigger] final(self).update_at(i)
                            == joined(
                            outputs@,
                            old(self).cell_count(),
                            old(self).spec_workers(),
                            i as nat,
                        )
                },
                Err(StepError::TaskCount) => {
                    &&& outputs@.len() != task_count(
                        old(self).cell_count(),
                        old(self).spec_workers(),
                    )
                    &&& *final(self) == *old(self)
                },
                Err(StepError::TaskFailed(t)) => {
                    &&& outputs@.len() == task_count(
                        old(self).cell_count(),
                        old(self).spec_workers(),
                    )
                    &&& t < outputs@.len()
                    &&& !output_fits(
                        outputs@,
                        old(self).cell_count(),
                        old(self).spec_workers(),
                        t as nat,
                    )
                    &&& forall|u: nat|
                        u < t ==> #[trigger] output_fits(
                            outputs@,
                            old(self).cell_count(),
                            old(self).spec_workers(),
                            u,
                        )
                    &&& *final(self) == *old(self)
                },
            },
    {
        let count: usize = self.cur_grid.len();
        let tasks: Vec<Range<usize>> = chunk_ranges(count, self.workers);
        let ghost cells = count as nat;
        let ghost workers = self.workers as nat;
        proof {
            lemma_tasks_tile(cells, workers);
        }
        if outputs.len() != tasks.len() {
            return Err(StepError::TaskCount);
        }
        let mut t: usize = 0;
        while t < tasks.len()
            invariant
                t <= tasks@.len(),
                outputs@.len() == tasks@.len(),
                tasks@.len() == task_count(cells, workers),
                forall|u: int|
                    0 <= u < tasks@.len() ==> (#[trigger] tasks@[u]).start == task_start(
                        cells,
                        workers,
                        u as nat,
                    ) && tasks@[u].end == task_end(cells, workers, u as nat),
                forall|u: nat|
                    u < tasks@.len() ==> #[trigger] task_start(cells, workers, u) <= task_end(
                        cells,
                        workers,
                        u,
                    ),
                forall|u: nat| u < t ==> #[trigger] output_fits(outputs@, cells, workers, u),
                *self == *old(self),
                cells == old(self).cell_count(),
                workers == old(self).spec_workers(),
            decreases tasks@.len() - t,
        {
            assert(task_start(cells, workers, t as nat) <= task_end(cells, workers, t as nat));
            let fits: bool = match &outputs[t] {
                Some(updates) => updates.len() == tasks[t].end - tasks[t].start,
                None => false,
            };
            if !fits {
                return Err(StepError::TaskFailed(t));
            }
            t += 1;
        }
        let mut t: usize = 0;
        while t < tasks.len()
            invariant
                t <= tasks@.len(),
                outputs@.len() == tasks@.len(),
                workers >= 1,
                tasks@.len() == task_count(cells, workers),
                forall|u: int|
                    0 <= u < tasks@.len() ==> (#[trigger] tasks@[u]).start == task_start(
                        cells,
                        workers,
                        u as nat,
                    ) && tasks@[u].end == task_end(cells, workers, u as nat),
                forall|u: nat|
                    u < tasks@.len() ==> #[trigger] output_fits(outputs@, cells, workers, u),
                self.cur_grid == old(self).cur_grid,
                self.params == old(self).params,
                self.workers == old(self).workers,
                self.started == old(self).started,
                self.nex_grid.wf(),
                self.nex_grid.spec_width() == old(self).nex_grid.spec_width(),
                self.nex_grid.spec_height() == old(self).nex_grid.spec_height(),
                self.nex_grid.values().len() == cells,
                self.framebuffer@.len() == cells,
                forall|i: int|
                    0 <= i < cells && task_of(cells, workers, i as nat) < t ==> (
                    #[trigger] self.nex_grid.values()[i]) == (Pair {
                        a: joined(outputs@, cells, workers, i as nat).a,
                        b: joined(outputs@, cells, workers, i as nat).b,
                    }) && self.framebuffer@[i] == joined(outputs@, cells, workers, i as nat).pixel,
            decreases tasks@.len() - t,
        {
            let start: usize = tasks[t].start;
            let ghost values = self.nex_grid.values();
            let ghost pixels = self.framebuffer@;
            proof {
                lemma_tasks_tile(cells, workers);
                assert(output_fits(outputs@, cells, workers, t as nat));
                assert(task_start(cells, workers, t as nat) <= task_end(cells, workers, t as nat)
                    <= cells);
            }
            if let Some(updates) = &outputs[t] {
                store(&mut self.nex_grid, &mut self.framebuffer, start, updates);
            }
            proof {
                assert forall|i: int|
                    0 <= i < cells && task_of(cells, workers, i as nat) < t + 1 implies (
                #[trigger] self.nex_grid.values()[i]) == (Pair {
                    a: joined(outputs@, cells, workers, i as nat).a,
                    b: joined(outputs@, cells, workers, i as nat).b,
                }) && self.framebuffer@[i] == joined(outputs@, cells, workers, i as nat).pixel by {
                    lemma_owned_once(cells, workers, i as nat);
                    let owner = task_of(cells, workers, i as nat);
                    assert(task_start(cells, workers, owner) <= i < task_end(
                        cells,
                        workers,
                        owner,
                    ));
                    if owner == t {
                    } else {
                        assert(!(task_start(cells, workers, t as nat) <= i < task_end(
                            cells,
                            workers,
                            t as nat,
                        )));
                        assert(self.nex_grid.values()[i] == values[i]);
                        assert(self.framebuffer@[i] == pixels[i]);
                    }
                }
            }
            t += 1;
        }
        self.swap();
        self.started = true;
        proof {
            assert forall|i: int| 0 <= i < cells implies #[trigger] self.update_at(i) == joined(
                outputs@,
                cells,
                workers,
                i as nat,
            ) by {
                lemma_owned_once(cells, workers, i as nat);
                assert(self.current().values()[i] == (Pair {
                    a: joined(outputs@, cells, workers, i as nat).a,
                    b: joined(outputs@, cells, workers, i as nat).b,
                }));
            }
        }
        Ok(())
    }

    /// Everything but the field of the current grid is as in `pre`.
    pub open spec fn same_but_field(&self, pre: Self) -> bool {
        &&& self.same_setup(pre)
        &&& self.has_started() == pre.has_started()
        &&& self.standby() == pre.standby()
        &&& self.pixels() == pre.pixels()
    }

    /// Sets the second concentration of cell `index` of the current grid to
    /// `b`. This is open until the first step has been completed.
    pub fn set_b(&mut self, index: usize, b: S) -> (done: Result<(), SeedError>)
        requires
            old(self).wf(),
        ensures
            match done {
                Ok(()) => {
                    &&& !old(self).has_started()
                    &&& index < old(self).cell_count()
                    &&& final(self).wf()
                    &&& final(self).same_but_field(*old(self))
                    &&& final(self).current().values() == old(self).current().values().update(
                        index as int,
                        Pair { a: old(self).current().values()[index as int].a, b },
                    )
                },
                Err(SeedError::Started) => old(self).has_started() && *final(self) == *old(self),
                Err(SeedError::OutOfRange) => {
                    &&& !old(self).has_started()
                    &&& index >= old(self).cell_count()
                    &&& *final(self) == *old(self)
                },
            },
    {
        if self.started {
            return Err(SeedError::Started);
        }
        if index >= self.cur_grid.len() {
            return Err(SeedError::OutOfRange);
        }
        let pair: Pair<S> = self.cur_grid.get(index);
        self.cur_grid.set(index, Pair { a: pair.a, b });
        Ok(())
    }

    /// Perturbs the field: sets the second concentration of the cell at
    /// `seed_index` to `b`. The cell depends on the grid's size alone.
    pub fn seed(&mut self, b: S)
        requires
            old(self).wf(),
        ensures
            final(self).wf(),
            final(self).same_but_field(*old(self)),
            final(self).current().values() == old(self).current().values().update(
                seed_index(old(self).current().spec_width(), old(self).current().spec_height())
                    as int,
                Pair {
                    a: old(self).current().values()[seed_index(
                        old(self).current().spec_width(),
                        old(self).current().spec_height(),
                    ) as int].a,
                    b,
                },
            ),
    {
        let count: usize = self.cur_grid.len();
        let width: usize = self.cur_grid.width();
        proof {
            let height = self.cur_grid.spec_height();
            assert(width <= width * height) by (nonlinear_arith)
                requires
                    height >= 1,
                    width >= 0,
            ;
        }
        let index: usize = (count / 2 + width / 2) % count;
        let pair: Pair<S> = self.cur_grid.get(index);
        self.cur_grid.set(index, Pair { a: pair.a, b });
    }

    /// Advances every cell by one step under the rule `kernel`. The step is
    /// split into the tasks of the worker count; each task reads the current
    /// grid only; the join writes every task's updates into the standby grid
    /// and the framebuffer, and the grids trade places.
    pub fn generation<F: Fn(SimulationParams<S>, Stencil<S>) -> Update<S>>(&mut self, kernel: &F)
        requires
            old(self).wf(),
            forall|i: int|
                0 <= i < old(self).cell_count() ==> call_requires(
                    *kernel,
                    (old(self).spec_params(), #[trigger] old(self).current().stencil_at(i)),
                ),
        ensures
            old(self).steps_to(*final(self), *kernel),
    {
        let tasks: Vec<Range<usize>> = self.tasks();
        let ghost cells = self.cell_count();
        let ghost workers = self.spec_workers();
        proof {
            lemma_tasks_tile(cells, workers);
        }
        let mut outputs: Vec<Option<Vec<Update<S>>>> = Vec::new();
        let mut t: usize = 0;
        while t < tasks.len()
            invariant
                t <= tasks@.len(),
                outputs@.len() == t,
                *self == *old(self),
                self.wf(),
                cells == self.cell_count(),
                workers == self.spec_workers(),
                tasks@.len() == task_count(cells, workers),
                forall|u: int|
                    0 <= u < tasks@.len() ==> (#[trigger] tasks@[u]).start == task_start(
                        cells,
                        workers,
                        u as nat,
                    ) && tasks@[u].end == task_end(cells, workers, u as nat),
                forall|u: nat|
                    u < tasks@.len() ==> #[trigger] task_start(cells, workers, u) <= task_end(
                        cells,
                        workers,
                        u,
                    ) <= cells,
                forall|i: int|
                    0 <= i < cells ==> call_requires(
                        *kernel,
                        (self.spec_params(), #[trigger] self.current().stencil_at(i)),
                    ),
                forall|u: nat| u < t ==> #[trigger] output_fits(outputs@, cells, workers, u),
                forall|u: int, j: int|
                    0 <= u < t && 0 <= j < outputs@[u].unwrap()@.len() ==> call_ensures(
                        *kernel,
                        (
                            self.spec_params(),
                            self.current().stencil_at(task_start(cells, workers, u as nat) + j),
                        ),
                        #[trigger] outputs@[u].unwrap()@[j],
                    ),
            decreases tasks@.len() - t,
        {
            assert(task_start(cells, workers, t as nat) <= task_end(cells, workers, t as nat)
                <= cells);
            let range: Range<usize> = Range { start: tasks[t].start, end: tasks[t].end };
            let updates: Vec<Update<S>> = gen_job(&self.cur_grid, range, self.params, kernel);
            let ghost earlier = outputs@;
            outputs.push(Some(updates));
            proof {
                assert forall|u: nat| u < t + 1 implies #[trigger] output_fits(
                    outputs@,
                    cells,
                    workers,
                    u,
                ) by {
                    if u < t {
                        assert(output_fits(earlier, cells, workers, u));
                        assert(outputs@[u as int] == earlier[u as int]);
                    }
                }
                assert forall|u: int, j: int|
                    0 <= u < t + 1 && 0 <= j < outputs@[u].unwrap()@.len() implies call_ensures(
                    *kernel,
                    (
                        self.spec_params(),
                        self.current().stencil_at(task_start(cells, workers, u as nat) + j),
                    ),
                    #[trigger] outputs@[u].unwrap()@[j],
                ) by {
                    if u < t {
                        assert(outputs@[u] == earlier[u]);
                    }
                }
            }
            t += 1;
        }
        let ghost handed = outputs@;
        let done: Result<(), StepError> = self.complete(outputs);
        proof {
            assert(done is Ok) by {
                if done is Err {
                    match done {
                        Err(StepError::TaskFailed(u)) => {
                            assert(output_fits(handed, cells, workers, u as nat));
                        },
                        _ => {},
                    }
                }
            }
            assert forall|i: int| 0 <= i < cells implies call_ensures(
                *kernel,
                (old(self).spec_params(), old(self).current().stencil_at(i)),
                #[trigger] self.update_at(i),
            ) by {
                lemma_owned_once(cells, workers, i as nat);
                let u = task_of(cells, workers, i as nat);
                let j = i - task_start(cells, workers, u);
                assert(output_fits(handed, cells, workers, u));
                assert(self.update_at(i) == handed[u as int].unwrap()@[j]);
            }
        }
    }
}

} // verus!
