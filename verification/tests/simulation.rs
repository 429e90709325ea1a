use gray_scott::color::pack_gray;
use gray_scott::grid::Stencil;
use gray_scott::sim::{
    gen_job, SeedError, Simulation, SimulationParams, StepError, Update, WORKERS,
};

fn coefficients() -> SimulationParams<f64> {
    SimulationParams { da: 1.0, db: 0.5, f: 0.055, k: 0.062, adj: 0.2, diag: 0.05 }
}

fn clamp(low: f64, value: f64, high: f64) -> f64 {
    if value < low {
        low
    } else if value > high {
        high
    } else {
        value
    }
}

/// The model's update of one cell, as a caller of the engine writes it.
fn gray_scott(p: SimulationParams<f64>, s: Stencil<f64>) -> Update<f64> {
    let c = s.center;
    let lap_a = -c.a
        + (s.up.a + s.down.a + s.left.a + s.right.a) * p.adj
        + (s.up_left.a + s.up_right.a + s.down_left.a + s.down_right.a) * p.diag;
    let lap_b = -c.b
        + (s.up.b + s.down.b + s.left.b + s.right.b) * p.adj
        + (s.up_left.b + s.up_right.b + s.down_left.b + s.down_right.b) * p.diag;
    let abb = c.a * c.b * c.b;
    let a = clamp(0.0, c.a + p.da * lap_a - abb + p.f * (1.0 - c.a), 1.0);
    let b = clamp(0.0, c.b + p.db * lap_b + abb - (p.k + p.f) * c.b, 1.0);
    let shade = clamp(0.1, (a + b) * (a - b) * 2.0, 1.0);
    Update { a, b, pixel: pack_gray((shade * 255.0) as u8) }
}

/// A rule on integers that makes every cell's place in its stencil visible.
fn weigh(_p: SimulationParams<i64>, s: Stencil<i64>) -> Update<i64> {
    let a = s.up_left.a
        + 2 * s.up.a
        + 3 * s.up_right.a
        + 5 * s.left.a
        + 7 * s.center.a
        + 11 * s.right.a
        + 13 * s.down_left.a
        + 17 * s.down.a
        + 19 * s.down_right.a;
    let b = s.center.b + s.left.b;
    Update { a: a % 1000, b: b % 1000, pixel: ((a + b) % 4096) as u32 }
}

fn no_coefficients() -> SimulationParams<i64> {
    SimulationParams { da: 0, db: 0, f: 0, k: 0, adj: 0, diag: 0 }
}

fn field_of<S: Copy>(sim: &Simulation<S>) -> Vec<(S, S)> {
    (0..sim.grid().len()).map(|i| (sim.grid().get(i).a, sim.grid().get(i).b)).collect()
}

fn scrambled(width: usize, height: usize, workers: usize) -> Simulation<i64> {
    let mut sim = Simulation::with_workers(no_coefficients(), width, height, 1, 0, workers);
    for i in 0..width * height {
        assert_eq!(sim.set_b(i, ((i * i * 31 + 7 * i + 3) % 97) as i64), Ok(()));
    }
    sim.generation(&|_p: SimulationParams<i64>, s: Stencil<i64>| Update {
        a: s.center.b * 3 + 1,
        b: s.center.b,
        pixel: 0,
    });
    sim
}

#[test]
fn new_simulation_is_uniform_and_black() {
    let sim = Simulation::new(1.0, 0.5, 0.015, 0.055, 0.2, 0.05, 6, 4, 1.0, 0.0);
    assert_eq!(sim.grid().width(), 6);
    assert_eq!(sim.grid().height(), 4);
    assert_eq!(sim.workers(), 16);
    assert_eq!(WORKERS, 16);
    assert!(!sim.started());
    assert_eq!(field_of(&sim), vec![(1.0, 0.0); 24]);
    assert_eq!(sim.framebuffer(), &vec![0u32; 24]);
    let params = sim.params();
    assert_eq!(
        (params.da, params.db, params.f, params.k, params.adj, params.diag),
        (1.0, 0.5, 0.015, 0.055, 0.2, 0.05)
    );
}

#[test]
fn worker_count_is_kept() {
    let sim = Simulation::with_workers(coefficients(), 3, 3, 1.0, 0.0, 5);
    assert_eq!(sim.workers(), 5);
    assert_eq!(sim.tasks(), vec![0..1, 1..2, 2..3, 3..4, 4..5, 5..9]);
}

#[test]
fn seed_perturbs_half_the_cells_plus_half_a_row_in() {
    let mut sim = Simulation::with_workers(coefficients(), 8, 6, 1.0, 0.0, 4);
    sim.seed(1.0);
    let field = field_of(&sim);
    for (i, &pair) in field.iter().enumerate() {
        assert_eq!(pair, if i == 28 { (1.0, 1.0) } else { (1.0, 0.0) });
    }
}

#[test]
fn seed_on_an_odd_grid() {
    let mut sim = Simulation::with_workers(coefficients(), 3, 3, 1.0, 0.0, 4);
    sim.seed(0.5);
    let field = field_of(&sim);
    for (i, &pair) in field.iter().enumerate() {
        assert_eq!(pair, if i == 5 { (1.0, 0.5) } else { (1.0, 0.0) });
    }
}

#[test]
fn seed_on_a_single_row_of_even_width_comes_round_to_the_first_cell() {
    let mut sim = Simulation::with_workers(coefficients(), 4, 1, 1.0, 0.0, 4);
    sim.seed(1.0);
    assert_eq!(field_of(&sim), vec![(1.0, 1.0), (1.0, 0.0), (1.0, 0.0), (1.0, 0.0)]);
}

#[test]
fn seed_on_a_single_cell() {
    let mut sim = Simulation::with_workers(coefficients(), 1, 1, 1.0, 0.0, 4);
    sim.seed(1.0);
    assert_eq!(field_of(&sim), vec![(1.0, 1.0)]);
}

#[test]
fn seed_keeps_framebuffer_and_first_concentration() {
    let mut sim = Simulation::with_workers(no_coefficients(), 4, 4, 7, 2, 3);
    sim.seed(9);
    assert_eq!(sim.grid().get(10).a, 7);
    assert_eq!(sim.grid().get(10).b, 9);
    assert_eq!(sim.framebuffer(), &vec![0u32; 16]);
    assert!(!sim.started());
}

#[test]
fn set_b_writes_one_cell_before_the_first_step() {
    let mut sim = Simulation::with_workers(coefficients(), 3, 3, 1.0, 0.0, 2);
    assert_eq!(sim.set_b(4, 1.0), Ok(()));
    let field = field_of(&sim);
    for (i, &pair) in field.iter().enumerate() {
        assert_eq!(pair, if i == 4 { (1.0, 1.0) } else { (1.0, 0.0) });
    }
}

#[test]
fn set_b_rejects_an_index_outside_the_grid() {
    let mut sim = Simulation::with_workers(coefficients(), 3, 3, 1.0, 0.0, 2);
    assert_eq!(sim.set_b(9, 1.0), Err(SeedError::OutOfRange));
    assert_eq!(sim.set_b(usize::MAX, 1.0), Err(SeedError::OutOfRange));
    assert_eq!(field_of(&sim), vec![(1.0, 0.0); 9]);
}

#[test]
fn set_b_is_closed_after_the_first_step() {
    let mut sim = Simulation::with_workers(coefficients(), 3, 3, 1.0, 0.0, 2);
    sim.generation(&gray_scott);
    assert!(sim.started());
    let before = field_of(&sim);
    assert_eq!(sim.set_b(4, 1.0), Err(SeedError::Started));
    assert_eq!(sim.set_b(9, 1.0), Err(SeedError::Started));
    assert_eq!(field_of(&sim), before);
}

#[test]
fn uniform_field_is_a_fixed_point() {
    let mut sim = Simulation::with_workers(coefficients(), 5, 4, 1.0, 0.0, 3);
    sim.generation(&gray_scott);
    assert_eq!(field_of(&sim), vec![(1.0, 0.0); 20]);
    sim.generation(&gray_scott);
    assert_eq!(field_of(&sim), vec![(1.0, 0.0); 20]);
    assert_eq!(sim.framebuffer(), &vec![0xffffffu32; 20]);
}

#[test]
fn one_step_on_three_by_three_with_a_seeded_center() {
    let mut sim = Simulation::with_workers(coefficients(), 3, 3, 1.0, 0.0, 4);
    assert_eq!(sim.set_b(4, 1.0), Ok(()));
    sim.generation(&gray_scott);
    let field = field_of(&sim);
    let close = |x: f64, y: f64| (x - y).abs() < 1e-12;
    // centre: the reaction uses up all of a, and b saturates
    assert!(close(field[4].0, 0.0) && close(field[4].1, 1.0));
    // corners see the centre on a diagonal: b = db * diag
    for &i in &[0usize, 2, 6, 8] {
        assert!(close(field[i].0, 1.0) && close(field[i].1, 0.025));
    }
    // edge cells see the centre at a side: b = db * adj
    for &i in &[1usize, 3, 5, 7] {
        assert!(close(field[i].0, 1.0) && close(field[i].1, 0.1));
    }
    let pixels = sim.framebuffer();
    assert_eq!(pixels[4], pack_gray(25));
    assert_eq!(pixels[0], pack_gray(255));
    assert_eq!(pixels[1], pack_gray(255));
}

#[test]
fn concentrations_stay_between_zero_and_one() {
    let mut sim = Simulation::new(1.0, 0.5, 0.015, 0.055, 0.2, 0.05, 16, 12, 1.0, 0.0);
    sim.seed(1.0);
    assert_eq!(sim.set_b(3, 1.0), Ok(()));
    assert_eq!(sim.set_b(100, 0.7), Ok(()));
    for _ in 0..40 {
        sim.generation(&gray_scott);
        for (a, b) in field_of(&sim) {
            assert!((0.0..=1.0).contains(&a) && (0.0..=1.0).contains(&b));
        }
        for &pixel in sim.framebuffer() {
            assert!(pixel < 1 << 24);
        }
    }
}

#[test]
fn every_cell_reads_its_own_stencil() {
    let (width, height) = (5usize, 4usize);
    let sim0 = scrambled(width, height, 3);
    let before = field_of(&sim0);
    let mut sim = sim0;
    sim.generation(&weigh);
    let after = field_of(&sim);
    let at = |x: i64, y: i64| {
        let nx = x.rem_euclid(width as i64) as usize;
        let ny = y.rem_euclid(height as i64) as usize;
        before[ny * width + nx]
    };
    for i in 0..width * height {
        let (x, y) = ((i % width) as i64, (i / width) as i64);
        let a = at(x - 1, y - 1).0
            + 2 * at(x, y - 1).0
            + 3 * at(x + 1, y - 1).0
            + 5 * at(x - 1, y).0
            + 7 * at(x, y).0
            + 11 * at(x + 1, y).0
            + 13 * at(x - 1, y + 1).0
            + 17 * at(x, y + 1).0
            + 19 * at(x + 1, y + 1).0;
        let b = at(x, y).1 + at(x - 1, y).1;
        assert_eq!(after[i], (a % 1000, b % 1000));
        assert_eq!(sim.framebuffer()[i], ((a + b) % 4096) as u32);
    }
}

#[test]
fn result_does_not_depend_on_the_worker_count() {
    let mut reference = scrambled(7, 5, 1);
    for _ in 0..3 {
        reference.generation(&weigh);
    }
    for workers in [2usize, 3, 4, 16, 34, 35, 36, 100] {
        let mut sim = scrambled(7, 5, workers);
        for _ in 0..3 {
            sim.generation(&weigh);
        }
        assert_eq!(field_of(&sim), field_of(&reference));
        assert_eq!(sim.framebuffer(), reference.framebuffer());
    }
}

#[test]
fn float_runs_repeat_bit_for_bit() {
    let run = |workers: usize| {
        let mut sim = Simulation::with_workers(coefficients(), 9, 7, 1.0, 0.0, workers);
        sim.seed(1.0);
        for _ in 0..25 {
            sim.generation(&gray_scott);
        }
        let bits: Vec<(u64, u64)> =
            field_of(&sim).iter().map(|&(a, b)| (a.to_bits(), b.to_bits())).collect();
        (bits, sim.framebuffer().clone())
    };
    let reference = run(16);
    assert_eq!(run(16), reference);
    assert_eq!(run(1), reference);
    assert_eq!(run(5), reference);
}

#[test]
fn tasks_run_by_hand_give_the_same_step() {
    let mut by_hand = scrambled(6, 5, 4);
    let mut whole = scrambled(6, 5, 4);
    let outputs: Vec<Option<Vec<Update<i64>>>> = by_hand
        .tasks()
        .into_iter()
        .rev()
        .map(|range| Some(gen_job(by_hand.grid(), range, by_hand.params(), &weigh)))
        .collect::<Vec<_>>()
        .into_iter()
        .rev()
        .collect();
    assert_eq!(by_hand.complete(outputs), Ok(()));
    whole.generation(&weigh);
    assert_eq!(field_of(&by_hand), field_of(&whole));
    assert_eq!(by_hand.framebuffer(), whole.framebuffer());
    assert!(by_hand.started());
}

#[test]
fn gen_job_returns_one_update_per_index_in_order() {
    let sim = scrambled(4, 4, 2);
    let updates = gen_job(sim.grid(), 5..9, sim.params(), &|_p, s: Stencil<i64>| Update {
        a: s.center.a,
        b: s.right.b,
        pixel: 1,
    });
    assert_eq!(updates.len(), 4);
    for (j, update) in updates.iter().enumerate() {
        assert_eq!(update.a, sim.grid().get(5 + j).a);
        assert_eq!(update.b, sim.grid().get(sim.grid().neighbor(5 + j, 5)).b);
        assert_eq!(update.pixel, 1);
    }
}

#[test]
fn gen_job_on_an_empty_range_does_nothing() {
    let sim = scrambled(4, 4, 2);
    assert!(gen_job(sim.grid(), 3..3, sim.params(), &weigh).is_empty());
    assert!(gen_job(sim.grid(), 20..20, sim.params(), &weigh).is_empty());
    #[allow(clippy::reversed_empty_ranges)]
    let backwards = 30..2;
    assert!(gen_job(sim.grid(), backwards, sim.params(), &weigh).is_empty());
}

#[test]
fn complete_rejects_a_wrong_number_of_outputs() {
    let mut sim = scrambled(3, 3, 2);
    let before = field_of(&sim);
    let pixels = sim.framebuffer().clone();
    assert_eq!(sim.complete(vec![]), Err(StepError::TaskCount));
    let two: Vec<Option<Vec<Update<i64>>>> = vec![None, None];
    assert_eq!(sim.complete(two), Err(StepError::TaskCount));
    assert_eq!(field_of(&sim), before);
    assert_eq!(sim.framebuffer(), &pixels);
}

#[test]
fn complete_names_the_first_task_that_failed() {
    let mut sim = scrambled(3, 3, 2);
    let before = field_of(&sim);
    let unit = Update { a: 0i64, b: 0i64, pixel: 0 };
    // three tasks: 0..4, 4..8, 8..9
    let missing = vec![Some(vec![unit; 4]), None, None];
    assert_eq!(sim.complete(missing), Err(StepError::TaskFailed(1)));
    let short = vec![Some(vec![unit; 3]), Some(vec![unit; 4]), Some(vec![unit; 1])];
    assert_eq!(sim.complete(short), Err(StepError::TaskFailed(0)));
    let long = vec![Some(vec![unit; 4]), Some(vec![unit; 4]), Some(vec![unit; 2])];
    assert_eq!(sim.complete(long), Err(StepError::TaskFailed(2)));
    assert_eq!(field_of(&sim), before);
}

#[test]
fn complete_writes_each_output_into_its_own_range() {
    let mut sim = Simulation::with_workers(no_coefficients(), 3, 3, 1i64, 0i64, 2);
    let at = |i: usize| Update { a: i as i64, b: 10 * i as i64, pixel: 100 + i as u32 };
    let outputs = vec![
        Some((0..4).map(at).collect::<Vec<_>>()),
        Some((4..8).map(at).collect::<Vec<_>>()),
        Some((8..9).map(at).collect::<Vec<_>>()),
    ];
    assert_eq!(sim.complete(outputs), Ok(()));
    for i in 0..9 {
        assert_eq!(field_of(&sim)[i], (i as i64, 10 * i as i64));
        assert_eq!(sim.framebuffer()[i], 100 + i as u32);
    }
}

#[test]
fn grids_trade_places_so_the_step_before_last_is_overwritten() {
    let mut sim = Simulation::with_workers(no_coefficients(), 4, 3, 1i64, 0i64, 3);
    let bump = |_p: SimulationParams<i64>, s: Stencil<i64>| Update {
        a: s.center.a + 1,
        b: s.center.b + s.center.a,
        pixel: s.center.a as u32,
    };
    for step in 1..=5i64 {
        sim.generation(&bump);
        for (a, b) in field_of(&sim) {
            assert_eq!(a, 1 + step);
            assert_eq!(b, (1..=step).sum::<i64>());
        }
        assert_eq!(sim.framebuffer(), &vec![step as u32; 12]);
    }
}

#[test]
fn single_cell_simulation_reads_itself() {
    let mut sim = Simulation::with_workers(no_coefficients(), 1, 1, 2i64, 3i64, 16);
    sim.generation(&weigh);
    assert_eq!(field_of(&sim), vec![(2 * (1 + 2 + 3 + 5 + 7 + 11 + 13 + 17 + 19), 6)]);
}
