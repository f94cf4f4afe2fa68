use one_max_ga::fixed_point::ONE;
use one_max_ga::results::Results;

#[test]
fn new_results_are_empty_and_score_zero() {
    let results = Results::new(100, ONE);
    assert_eq!(results.max_generations, 100);
    assert_eq!(results.max_fitness, ONE);
    assert!(results.generations.is_empty());
    assert!(results.generation_fitnesses.is_empty());
    assert!(results.best_fitnesses.is_empty());
    assert_eq!(results.total_generations, 0);
    assert_eq!(results.avg_generation, 0);
    assert_eq!(results.avg_generation_fitness, 0);
    assert_eq!(results.avg_best_fitness, 0);
    assert_eq!(results.best_fitness, 0);
    assert_eq!(results.get_score(), 0);
}

#[test]
fn sums_of_no_outcome() {
    let mut results = Results::new(100, ONE);
    results.set_overall_values();
    assert_eq!(results.total_generations, 0);
    assert_eq!(results.avg_generation, 100 * ONE);
    assert_eq!(results.avg_generation_fitness, 0);
    assert_eq!(results.avg_best_fitness, 0);
    assert_eq!(results.best_fitness, 0);
    assert_eq!(results.get_score(), 0);
}

#[test]
fn two_outcomes_are_summed_up_exactly() {
    let mut results = Results::new(100, ONE);
    results.add_result(1, 800_000_000, 900_000_000);
    results.add_result(2, 850_000_000, 920_000_000);
    assert_eq!(results.generations, vec![1, 2]);
    assert_eq!(results.generation_fitnesses, vec![800_000_000, 850_000_000]);
    assert_eq!(results.best_fitnesses, vec![900_000_000, 920_000_000]);
    assert_eq!(results.total_generations, 2);
    assert_eq!(results.avg_generation, 1_500_000_000);
    assert_eq!(results.avg_generation_fitness, 825_000_000);
    assert_eq!(results.avg_best_fitness, 910_000_000);
    assert_eq!(results.best_fitness, 920_000_000);
    assert_eq!(results.get_score(), 897_000_000);
    assert_eq!(results.score, 897_000_000);
}

#[test]
fn score_of_one_outcome() {
    let mut results = Results::new(100, ONE);
    results.add_result(1, 800_000_000, 900_000_000);
    assert_eq!(results.avg_generation, ONE);
    assert_eq!(results.get_score(), 880_000_000);
    let mut perfect = Results::new(500, ONE);
    perfect.add_result(1, ONE, ONE);
    assert_eq!(perfect.get_score(), ONE);
    let mut at_once = Results::new(500, ONE);
    at_once.add_result(0, ONE, ONE);
    assert_eq!(at_once.get_score(), 1_000_200_000);
}

#[test]
fn the_greatest_best_fitness_is_kept_whatever_comes_after() {
    let mut results = Results::new(10, ONE);
    results.add_result(3, 100_000_000, 700_000_000);
    results.add_result(3, 100_000_000, 900_000_000);
    results.add_result(3, 100_000_000, 200_000_000);
    assert_eq!(results.best_fitness, 900_000_000);
    assert_eq!(results.avg_best_fitness, 600_000_000);
    assert_eq!(results.total_generations, 3);
}

#[test]
fn means_round_toward_zero() {
    let mut results = Results::new(10, ONE);
    results.add_result(1, 1, 2);
    results.add_result(2, 2, 3);
    assert_eq!(results.avg_generation, 1_500_000_000);
    assert_eq!(results.avg_generation_fitness, 1);
    assert_eq!(results.avg_best_fitness, 2);
    results.add_result(2, 2, 3);
    assert_eq!(results.avg_generation, 1_666_666_666);
    assert_eq!(results.avg_generation_fitness, 1);
    assert_eq!(results.avg_best_fitness, 2);
}

#[test]
fn the_generation_term_is_not_clamped() {
    let mut results = Results::new(1, ONE);
    results.add_result(1000, 0, 0);
    assert_eq!(results.avg_generation, 1000 * ONE);
    assert_eq!(results.get_score(), -99_800_000_000);
    assert!(results.get_score() < 0);
}

#[test]
fn the_score_of_the_latest_generations_a_trial_can_report() {
    let mut results = Results::new(1, 1);
    results.add_result(u32::MAX, ONE, ONE);
    assert_eq!(results.avg_generation, u32::MAX as i64 * ONE);
    assert_eq!(
        results.get_score(),
        ((4 * ONE as i128 * ONE as i128
            + (ONE as i128 - (u32::MAX as i128 * ONE as i128 - ONE as i128))
            + 3 * ONE as i128
            + 2 * ONE as i128 * ONE as i128)
            / 10) as i64
    );
}

#[test]
fn fitness_is_weighed_against_the_perfect_fitness() {
    let mut results = Results::new(100, 2 * ONE);
    results.add_result(1, 500_000_000, ONE);
    // 0.4 * (1 / 2) + 0.1 * 1 + 0.3 * 0.5 + 0.2 * (1 / 2)
    assert_eq!(results.get_score(), 550_000_000);
}

#[test]
fn score_divisions_round_toward_zero() {
    let mut results = Results::new(3, 3 * ONE);
    results.add_result(0, 0, ONE);
    // best over perfect: 333_333_333; generation term: 1 + trunc(1 / 3) = 1_333_333_333
    // (4 * 333_333_333 + 1_333_333_333 + 0 + 2 * 333_333_333) / 10 = 333_333_333.1
    assert_eq!(results.get_score(), 333_333_333);
}

#[test]
fn calculate_ponderate_score_reads_the_sums_as_they_stand() {
    let mut results = Results::new(100, ONE);
    results.add_result(1, 800_000_000, 900_000_000);
    results.best_fitness = ONE;
    results.avg_generation = 51 * ONE;
    results.avg_generation_fitness = 0;
    results.avg_best_fitness = 500_000_000;
    results.calculate_ponderate_score();
    // 0.4 * 1 + 0.1 * (1 - 50 / 100) + 0.3 * 0 + 0.2 * 0.5
    assert_eq!(results.get_score(), 550_000_000);
    assert_eq!(results.best_fitness, ONE);
    assert_eq!(results.avg_generation, 51 * ONE);
    assert_eq!(results.generations, vec![1]);
}

#[test]
fn calculate_ponderate_score_of_no_outcome_is_zero() {
    let mut results = Results::new(100, ONE);
    results.best_fitness = ONE;
    results.avg_best_fitness = ONE;
    results.calculate_ponderate_score();
    assert_eq!(results.get_score(), 0);
}

#[test]
fn results_can_be_copied() {
    let mut results = Results::new(100, ONE);
    results.add_result(1, 800_000_000, 900_000_000);
    let copy = results.clone();
    results.add_result(2, 850_000_000, 920_000_000);
    assert_eq!(copy.generations, vec![1]);
    assert_eq!(copy.get_score(), 880_000_000);
    assert_eq!(results.get_score(), 897_000_000);
}
