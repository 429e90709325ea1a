//! What holds of a step whatever the update rule computes: it depends on
//! the field and the rule alone, it hands on what the rule guarantees, and
//! it keeps a uniform field that the rule keeps.

use crate::grid::{lemma_neighbor_in_range, neighbor_index, Pair, Stencil};
use crate::sim::{Simulation, SimulationParams, Update};
use vstd::prelude::*;

verus! {

/// The rule is a function of its arguments: it allows one update only for
/// given coefficients and a given stencil.
pub open spec fn deterministic<S, F: Fn(SimulationParams<S>, Stencil<S>) -> Update<S>>(
    kernel: F,
) -> bool {
    forall|params: SimulationParams<S>, stencil: Stencil<S>, first: Update<S>, second: Update<S>|
        #[trigger] call_ensures(kernel, (params, stencil), first) && #[trigger] call_ensures(
            kernel,
            (params, stencil),
            second,
        ) ==> first == second
}

/// Two simulations have the same coefficients, the same grid size and the
/// same field. Their worker counts may differ.
pub open spec fn same_state<S: Copy>(first: Simulation<S>, second: Simulation<S>) -> bool {
    &&& first.spec_params() == second.spec_params()
    &&& first.current().spec_width() == second.current().spec_width()
    &&& first.current().spec_height() == second.current().spec_height()
    &&& first.current().values() == second.current().values()
}

/// Each simulation of `run` but the last steps to the one after it.
pub open spec fn is_run<S: Copy, F: Fn(SimulationParams<S>, Stencil<S>) -> Update<S>>(
    run: Seq<Simulation<S>>,
    kernel: F,
) -> bool {
    forall|n: int| 0 <= n && n + 1 < run.len() ==> (#[trigger] run[n]).steps_to(run[n + 1], kernel)
}

/// One step under a rule that is a function gives one result: two
/// simulations in the same state, split for any two worker counts, are in
/// the same state after the step and show the same framebuffer.
pub proof fn lemma_step_deterministic<S: Copy, F: Fn(SimulationParams<S>, Stencil<S>) -> Update<S>>(
    first: Simulation<S>,
    first_after: Simulation<S>,
    second: Simulation<S>,
    second_after: Simulation<S>,
    kernel: F,
)
    requires
        first.wf(),
        second.wf(),
        same_state(first, second),
        deterministic(kernel),
        first.steps_to(first_after, kernel),
        second.steps_to(second_after, kernel),
    ensures
        same_state(first_after, second_after),
        first_after.pixels() == second_after.pixels(),
{
    assert forall|i: int| 0 <= i < first.cell_count() implies first_after.update_at(i)
        == second_after.update_at(i) by {
        assert(call_ensures(
            kernel,
            (first.spec_params(), first.current().stencil_at(i)),
            first_after.update_at(i),
        ));
        assert(call_ensures(
            kernel,
            (second.spec_params(), second.current().stencil_at(i)),
            second_after.update_at(i),
        ));
    }
    assert forall|i: int| 0 <= i < first.cell_count() implies (
    #[trigger] first_after.current().values()[i]) == second_after.current().values()[i] by {
        assert(first_after.update_at(i) == second_after.update_at(i));
        assert(first_after.update_at(i).a == first_after.current().values()[i].a);
        assert(second_after.update_at(i).a == second_after.current().values()[i].a);
        assert(first_after.update_at(i).b == first_after.current().values()[i].b);
        assert(second_after.update_at(i).b == second_after.current().values()[i].b);
    }
    assert forall|i: int| 0 <= i < first.cell_count() implies (#[trigger] first_after.pixels()[i])
        == second_after.pixels()[i] by {
        assert(first_after.update_at(i) == second_after.update_at(i));
    }
    assert(first_after.current().values() =~= second_after.current().values());
    assert(first_after.pixels() =~= second_after.pixels());
}

/// Two runs of the same number of steps under a rule that is a function,
/// begun in the same state, pass through the same states and show the same
/// framebuffer after every step, whatever their worker counts.
pub proof fn lemma_runs_agree<S: Copy, F: Fn(SimulationParams<S>, Stencil<S>) -> Update<S>>(
    first: Seq<Simulation<S>>,
    second: Seq<Simulation<S>>,
    kernel: F,
    n: int,
)
    requires
        first.len() == second.len(),
        0 <= n < first.len(),
        first[0].wf(),
        second[0].wf(),
        same_state(first[0], second[0]),
        deterministic(kernel),
        is_run(first, kernel),
        is_run(second, kernel),
    ensures
        first[n].wf(),
        second[n].wf(),
        same_state(first[n], second[n]),
        n >= 1 ==> first[n].pixels() == second[n].pixels(),
    decreases n,
{
    if n >= 1 {
        lemma_runs_agree(first, second, kernel, n - 1);
        assert(first[n - 1].steps_to(first[n - 1 + 1], kernel));
        assert(second[n - 1].steps_to(second[n - 1 + 1], kernel));
        lemma_step_deterministic(first[n - 1], first[n], second[n - 1], second[n], kernel);
    }
}

/// What the rule guarantees of both concentrations of every update holds of
/// both concentrations of every cell after a step.
pub proof fn lemma_step_within<S: Copy, F: Fn(SimulationParams<S>, Stencil<S>) -> Update<S>>(
    before: Simulation<S>,
    after: Simulation<S>,
    kernel: F,
    bound: spec_fn(S) -> bool,
)
    requires
        before.wf(),
        before.steps_to(after, kernel),
        forall|params: SimulationParams<S>, stencil: Stencil<S>, update: Update<S>| #[trigger]
            call_ensures(kernel, (params, stencil), update) ==> bound(update.a) && bound(
                update.b,
            ),
    ensures
        after.cell_count() == before.cell_count(),
        forall|i: int|
            0 <= i < after.cell_count() ==> bound((#[trigger] after.current().values()[i]).a)
                && bound(after.current().values()[i].b),
{
    assert forall|i: int| 0 <= i < after.cell_count() implies bound(
        (#[trigger] after.current().values()[i]).a,
    ) && bound(after.current().values()[i].b) by {
        assert(call_ensures(
            kernel,
            (before.spec_params(), before.current().stencil_at(i)),
            after.update_at(i),
        ));
    }
}

/// The stencil all of whose nine positions hold `pair`.
pub open spec fn uniform_stencil<S>(pair: Pair<S>) -> Stencil<S> {
    Stencil {
        up_left: pair,
        up: pair,
        up_right: pair,
        left: pair,
        center: pair,
        right: pair,
        down_left: pair,
        down: pair,
        down_right: pair,
    }
}

/// A field whose every cell holds `pair` is a fixed point of the step under
/// a rule that returns `pair` for the stencil that holds `pair` everywhere.
pub proof fn lemma_uniform_fixed_point<S: Copy, F: Fn(SimulationParams<S>, Stencil<S>) -> Update<S>>(
    before: Simulation<S>,
    after: Simulation<S>,
    kernel: F,
    pair: Pair<S>,
)
    requires
        before.wf(),
        before.steps_to(after, kernel),
        forall|i: int|
            0 <= i < before.cell_count() ==> #[trigger] before.current().values()[i] == pair,
        forall|update: Update<S>| #[trigger]
            call_ensures(kernel, (before.spec_params(), uniform_stencil(pair)), update)
                ==> update.a == pair.a && update.b == pair.b,
    ensures
        after.current().values() == before.current().values(),
{
    let width = before.current().spec_width() as int;
    let height = before.current().spec_height() as int;
    assert forall|i: int| 0 <= i < before.cell_count() implies after.current().values()[i]
        == before.current().values()[i] by {
        assert forall|k: int| 0 <= k < 9 implies before.current().values()[neighbor_index(
            width,
            height,
            i,
            k,
        )] == pair by {
            lemma_neighbor_in_range(width, height, i, k);
        }
        assert(before.current().stencil_at(i) == uniform_stencil(pair)) by {
            assert(before.current().values()[neighbor_index(width, height, i, 0)] == pair);
            assert(before.current().values()[neighbor_index(width, height, i, 1)] == pair);
            assert(before.current().values()[neighbor_index(width, height, i, 2)] == pair);
            assert(before.current().values()[neighbor_index(width, height, i, 3)] == pair);
            assert(before.current().values()[neighbor_index(width, height, i, 4)] == pair);
            assert(before.current().values()[neighbor_index(width, height, i, 5)] == pair);
            assert(before.current().values()[neighbor_index(width, height, i, 6)] == pair);
            assert(before.current().values()[neighbor_index(width, height, i, 7)] == pair);
            assert(before.current().values()[neighbor_index(width, height, i, 8)] == pair);
        }
        assert(call_ensures(
            kernel,
            (before.spec_params(), before.current().stencil_at(i)),
            after.update_at(i),
        ));
    }
    assert(after.current().values() =~= before.current().values());
}

} // verus!
