use one_max_ga::fixed_point::ONE;
use one_max_ga::results::Results;
use one_max_ga::sweep::{max_threads, worker_pool_size, Sweep};

/// Results of one trial whose score is `(9 * fitness + 1) / 10`.
fn results_of(fitness: i64) -> Results {
    let mut results = Results::new(100, ONE);
    results.add_result(1, fitness, fitness);
    results
}

/// Results of one trial with a score below zero.
fn poor_results() -> Results {
    let mut results = Results::new(100, ONE);
    results.add_result(2000, 0, 0);
    results
}

#[test]
fn scores_of_the_results_that_the_sweep_tests_use() {
    assert_eq!(results_of(0).get_score(), 100_000_000);
    assert_eq!(results_of(500_000_000).get_score(), 550_000_000);
    assert_eq!(results_of(ONE).get_score(), ONE);
    assert_eq!(poor_results().get_score(), -1_899_000_000);
}

#[test]
fn the_pool_leaves_two_processors_out_and_has_a_worker_always() {
    assert_eq!(worker_pool_size(0), 1);
    assert_eq!(worker_pool_size(1), 1);
    assert_eq!(worker_pool_size(2), 1);
    assert_eq!(worker_pool_size(3), 1);
    assert_eq!(worker_pool_size(4), 2);
    assert_eq!(worker_pool_size(16), 14);
    assert_eq!(worker_pool_size(usize::MAX), usize::MAX - 2);
    assert!(max_threads() >= 1);
}

#[test]
fn a_new_sweep_starts_at_the_first_cell() {
    let sweep = Sweep::new(vec![10, 20], vec![1, 2, 3], 500, ONE);
    assert_eq!(sweep.current(), Some((10, 1)));
    assert_eq!((sweep.row, sweep.column), (0, 0));
    assert_eq!(sweep.best_score, 0);
    assert_eq!(sweep.best_mutation_rate, 0);
    assert_eq!(sweep.best_crossover_rate, 0);
    assert_eq!(sweep.best_result.max_generations, 500);
    assert_eq!(sweep.best_result.max_fitness, ONE);
    assert!(sweep.best_result.generations.is_empty());
}

#[test]
fn a_sweep_over_no_rates_is_done_at_once() {
    assert_eq!(Sweep::new(vec![], vec![1, 2], 500, ONE).current(), None);
    assert_eq!(Sweep::new(vec![1, 2], vec![], 500, ONE).current(), None);
    assert_eq!(Sweep::new(vec![], vec![], 500, ONE).current(), None);
}

#[test]
fn a_row_of_rising_scores_is_walked_to_its_end() {
    let mut sweep = Sweep::new(vec![10, 20], vec![1, 2, 3], 500, 2 * ONE);
    assert_eq!(sweep.record(results_of(100_000_000)), 1);
    assert_eq!(sweep.current(), Some((10, 2)));
    assert_eq!(sweep.record(results_of(200_000_000)), 1);
    assert_eq!(sweep.current(), Some((10, 3)));
    assert_eq!(sweep.record(results_of(300_000_000)), 1);
    assert_eq!(sweep.current(), Some((20, 1)));
    assert_eq!(sweep.previous_score, 0);
    assert_eq!(sweep.best_score, results_of(300_000_000).get_score());
    assert_eq!((sweep.best_mutation_rate, sweep.best_crossover_rate), (10, 3));
}

#[test]
fn the_rest_of_a_row_is_skipped_where_the_score_does_not_rise() {
    let mut sweep = Sweep::new(vec![10, 20], vec![1, 2, 3, 4], 500, 2 * ONE);
    assert_eq!(sweep.record(results_of(500_000_000)), 1);
    assert_eq!(sweep.record(results_of(400_000_000)), 3);
    assert_eq!(sweep.current(), Some((20, 1)));
    assert_eq!((sweep.best_mutation_rate, sweep.best_crossover_rate), (10, 1));
    assert_eq!(sweep.best_score, 550_000_000);
}

#[test]
fn an_equal_score_skips_the_rest_of_the_row_too() {
    let mut sweep = Sweep::new(vec![10, 20], vec![1, 2, 3], 500, 2 * ONE);
    assert_eq!(sweep.record(results_of(500_000_000)), 1);
    assert_eq!(sweep.record(results_of(500_000_000)), 2);
    assert_eq!(sweep.current(), Some((20, 1)));
}

#[test]
fn the_first_cell_of_a_row_is_never_skipped_from() {
    let mut sweep = Sweep::new(vec![10, 20], vec![1, 2], 500, 2 * ONE);
    assert_eq!(sweep.record(poor_results()), 1);
    assert_eq!(sweep.current(), Some((10, 2)));
    assert_eq!(sweep.previous_score, poor_results().get_score());
    assert_eq!(sweep.record(results_of(0)), 1);
    assert_eq!(sweep.current(), Some((20, 1)));
    assert_eq!(sweep.record(results_of(0)), 1);
    assert_eq!(sweep.current(), Some((20, 2)));
}

#[test]
fn a_tie_goes_to_the_newer_cell() {
    let mut sweep = Sweep::new(vec![10, 20], vec![1, 2], 500, 2 * ONE);
    sweep.record(results_of(300_000_000));
    sweep.record(results_of(400_000_000));
    assert_eq!((sweep.best_mutation_rate, sweep.best_crossover_rate), (10, 2));
    sweep.record(results_of(400_000_000));
    assert_eq!((sweep.best_mutation_rate, sweep.best_crossover_rate), (20, 1));
    assert_eq!(sweep.best_score, results_of(400_000_000).get_score());
    sweep.record(results_of(300_000_000));
    assert_eq!((sweep.best_mutation_rate, sweep.best_crossover_rate), (20, 1));
    assert_eq!(sweep.current(), None);
}

#[test]
fn the_best_results_are_those_of_the_best_cell() {
    let mut sweep = Sweep::new(vec![10], vec![1, 2, 3], 500, 2 * ONE);
    let mut first = Results::new(100, ONE);
    first.add_result(1, 100_000_000, 100_000_000);
    let mut second = Results::new(100, ONE);
    second.add_result(7, 900_000_000, 950_000_000);
    second.add_result(9, 900_000_000, 950_000_000);
    let mut third = Results::new(100, ONE);
    third.add_result(50, 0, 0);
    sweep.record(first);
    sweep.record(second);
    sweep.record(third);
    assert_eq!(sweep.best_result.generations, vec![7, 9]);
    assert_eq!(sweep.best_result.best_fitness, 950_000_000);
    assert_eq!(sweep.best_result.get_score(), sweep.best_score);
    assert_eq!((sweep.best_mutation_rate, sweep.best_crossover_rate), (10, 2));
}

#[test]
fn a_score_below_zero_never_becomes_the_best() {
    let mut sweep = Sweep::new(vec![10, 20], vec![1], 500, 2 * ONE);
    sweep.record(poor_results());
    sweep.record(poor_results());
    assert_eq!(sweep.current(), None);
    assert_eq!(sweep.best_score, 0);
    assert_eq!((sweep.best_mutation_rate, sweep.best_crossover_rate), (0, 0));
    assert!(sweep.best_result.generations.is_empty());
}

#[test]
fn reaching_the_target_leaves_the_row_and_not_the_sweep() {
    let mut sweep = Sweep::new(vec![10, 20, 30], vec![1, 2, 3], 500, 900_000_000);
    assert_eq!(sweep.record(results_of(ONE)), 1);
    assert_eq!(sweep.current(), Some((20, 1)));
    assert_eq!(sweep.record(results_of(0)), 1);
    assert_eq!(sweep.current(), Some((30, 1)));
    assert_eq!(sweep.record(results_of(0)), 1);
    assert_eq!(sweep.current(), None);
    assert_eq!((sweep.best_mutation_rate, sweep.best_crossover_rate), (10, 1));
    assert_eq!(sweep.best_score, ONE);
}

#[test]
fn a_score_at_the_target_has_reached_it() {
    let mut sweep = Sweep::new(vec![10, 20], vec![1, 2], 500, 550_000_000);
    assert_eq!(sweep.record(results_of(500_000_000)), 1);
    assert_eq!(sweep.current(), Some((20, 1)));
    let mut below = Sweep::new(vec![10, 20], vec![1, 2], 500, 550_000_001);
    assert_eq!(below.record(results_of(500_000_000)), 1);
    assert_eq!(below.current(), Some((10, 2)));
}

#[test]
fn a_target_of_zero_is_reached_from_the_start() {
    let mut sweep = Sweep::new(vec![10, 20], vec![1, 2, 3], 500, 0);
    assert_eq!(sweep.record(poor_results()), 1);
    assert_eq!(sweep.current(), Some((20, 1)));
}

#[test]
fn the_progress_never_exceeds_the_cells_of_the_grid() {
    let fitness = [300_000_000, 500_000_000, 400_000_000, 900_000_000, 100_000_000, 200_000_000];
    for start in 0..fitness.len() {
        let mut sweep = Sweep::new(vec![1, 2, 3, 4], vec![5, 6, 7], 500, 2 * ONE);
        let mut progress = 0;
        let mut cells = 0;
        while let Some((mutation_rate, crossover_rate)) = sweep.current() {
            assert_eq!(mutation_rate, sweep.mutation_rates[sweep.row]);
            assert_eq!(crossover_rate, sweep.crossover_rates[sweep.column]);
            progress += sweep.record(results_of(fitness[(start + cells) % fitness.len()]));
            cells += 1;
            assert!(cells <= 12);
        }
        assert!(cells <= progress && progress <= 12);
        assert_eq!(sweep.row, 4);
    }
}
