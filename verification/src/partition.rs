//! The split of one step into worker tasks: contiguous index ranges that
//! together cover every cell exactly once.

use core::ops::Range;
use vstd::arithmetic::div_mod::*;
use vstd::prelude::*;

verus! {

/// Cells per full task: the cell count divided by the worker count, rounded
/// down.
pub open spec fn chunk_len(cells: nat, workers: nat) -> nat {
    cells / workers
}

/// Number of tasks of one step: one per worker, and one more for the
/// remainder when the workers' chunks do not reach the last cell.
pub open spec fn task_count(cells: nat, workers: nat) -> nat {
    if chunk_len(cells, workers) * workers < cells {
        workers + 1
    } else {
        workers
    }
}

/// First index of task `t`.
pub open spec fn task_start(cells: nat, workers: nat, t: nat) -> nat {
    if t < workers {
        t * chunk_len(cells, workers)
    } else {
        chunk_len(cells, workers) * workers
    }
}

/// Index one past the last of task `t`.
pub open spec fn task_end(cells: nat, workers: nat, t: nat) -> nat {
    if t < workers {
        (t + 1) * chunk_len(cells, workers)
    } else {
        cells
    }
}

/// The task that index `i` belongs to.
pub open spec fn task_of(cells: nat, workers: nat, i: nat) -> nat {
    if i < chunk_len(cells, workers) * workers {
        i / chunk_len(cells, workers)
    } else {
        workers
    }
}

/// The workers' chunks never reach past the last cell.
pub proof fn lemma_chunks_fit(cells: nat, workers: nat)
    requires
        workers >= 1,
    ensures
        chunk_len(cells, workers) * workers <= cells,
        forall|t: nat|
            t <= workers ==> #[trigger] (t * chunk_len(cells, workers)) <= chunk_len(
                cells,
                workers,
            ) * workers,
{
    let c = chunk_len(cells, workers);
    lemma_fundamental_div_mod(cells as int, workers as int);
    lemma_mod_bound(cells as int, workers as int);
    assert(c * workers == workers * c) by (nonlinear_arith);
    assert forall|t: nat| t <= workers implies #[trigger] (t * c) <= c * workers by {
        assert(t * c <= c * workers) by (nonlinear_arith)
            requires
                t <= workers,
                c >= 0,
        ;
    }
}

/// The tasks tile the index range: the first starts at 0, each starts where
/// the one before it ends, and the last ends at the cell count.
pub proof fn lemma_tasks_tile(cells: nat, workers: nat)
    requires
        workers >= 1,
    ensures
        task_start(cells, workers, 0) == 0,
        task_end(cells, workers, (task_count(cells, workers) - 1) as nat) == cells,
        forall|t: nat|
            t < task_count(cells, workers) ==> #[trigger] task_start(cells, workers, t)
                <= task_end(cells, workers, t) <= cells,
        forall|t: nat|
            t + 1 < task_count(cells, workers) ==> #[trigger] task_end(cells, workers, t)
                == task_start(cells, workers, t + 1),
{
    let c = chunk_len(cells, workers);
    lemma_chunks_fit(cells, workers);
    assert(0 * c == 0);
    assert forall|t: nat| t < task_count(cells, workers) implies #[trigger] task_start(
        cells,
        workers,
        t,
    ) <= task_end(cells, workers, t) <= cells by {
        if t < workers {
            assert((t + 1) * c == t * c + c) by (nonlinear_arith);
            assert((t + 1) * c <= c * workers);
        }
    }
    assert forall|t: nat| t + 1 < task_count(cells, workers) implies #[trigger] task_end(
        cells,
        workers,
        t,
    ) == task_start(cells, workers, t + 1) by {
        if t + 1 == workers {
            assert((t + 1) * c == c * workers) by (nonlinear_arith)
                requires
                    t + 1 == workers,
            ;
        }
    }
    if c * workers < cells {
    } else {
        assert(workers * c == c * workers) by (nonlinear_arith);
        assert(((workers - 1) as nat + 1) * c == workers * c);
    }
}

/// Every index below the cell count lies in the range of exactly one task.
pub proof fn lemma_owned_once(cells: nat, workers: nat, i: nat)
    requires
        workers >= 1,
        i < cells,
    ensures
        task_of(cells, workers, i) < task_count(cells, workers),
        forall|t: nat|
            t < task_count(cells, workers) ==> ((#[trigger] task_start(cells, workers, t) <= i
                < task_end(cells, workers, t)) <==> t == task_of(cells, workers, i)),
{
    let c = chunk_len(cells, workers);
    lemma_chunks_fit(cells, workers);
    if i < c * workers {
        assert(c > 0) by (nonlinear_arith)
            requires
                i < c * workers,
                i >= 0,
                c >= 0,
        ;
        lemma_fundamental_div_mod(i as int, c as int);
        lemma_mod_bound(i as int, c as int);
        let q = i / c;
        assert(c * q == q * c) by (nonlinear_arith);
        assert((q + 1) * c == q * c + c) by (nonlinear_arith);
        assert(q < workers) by (nonlinear_arith)
            requires
                q * c <= i,
                i < c * workers,
                c > 0,
        ;
    }
    assert forall|t: nat| t < task_count(cells, workers) implies ((#[trigger] task_start(
        cells,
        workers,
        t,
    ) <= i < task_end(cells, workers, t)) <==> t == task_of(cells, workers, i)) by {
        if t < workers {
            assert((t + 1) * c == t * c + c) by (nonlinear_arith);
            assert((t + 1) * c <= c * workers);
            if t * c <= i < (t + 1) * c {
                assert(c * t == t * c) by (nonlinear_arith);
                lemma_fundamental_div_mod_converse(i as int, c as int, t as int, i - t * c);
            }
        }
    }
}

/// Splits `cells` indices among `workers` workers: one task of
/// `cells / workers` consecutive indices per worker, and a last task for the
/// indices left over, if there are any.
pub fn chunk_ranges(cells: usize, workers: usize) -> (tasks: Vec<Range<usize>>)
    requires
        workers >= 1,
    ensures
        tasks@.len() == task_count(cells as nat, workers as nat),
        forall|t: int|
            0 <= t < tasks@.len() ==> (#[trigger] tasks@[t]).start == task_start(
                cells as nat,
                workers as nat,
                t as nat,
            ) && tasks@[t].end == task_end(cells as nat, workers as nat, t as nat),
{
    let chunk: usize = cells / workers;
    proof {
        lemma_chunks_fit(cells as nat, workers as nat);
    }
    let mut tasks: Vec<Range<usize>> = Vec::new();
    let mut t: usize = 0;
    while t < workers
        invariant
            t <= workers,
            workers >= 1,
            chunk == chunk_len(cells as nat, workers as nat),
            chunk * workers <= cells,
            tasks@.len() == t,
            forall|u: int|
                0 <= u < t ==> (#[trigger] tasks@[u]).start == task_start(
                    cells as nat,
                    workers as nat,
                    u as nat,
                ) && tasks@[u].end == task_end(cells as nat, workers as nat, u as nat),
        decreases workers - t,
    {
        proof {
            assert((t + 1) * chunk <= chunk * workers) by (nonlinear_arith)
                requires
                    t + 1 <= workers,
                    chunk >= 0,
            ;
            assert(t * chunk <= (t + 1) * chunk) by (nonlinear_arith)
                requires
                    chunk >= 0,
            ;
        }
        let start: usize = t * chunk;
        let end: usize = (t + 1) * chunk;
        tasks.push(Range { start, end });
        t += 1;
    }
    let covered: usize = chunk * workers;
    if covered < cells {
        tasks.push(Range { start: covered, end: cells });
    }
    tasks
}

} // verus!
