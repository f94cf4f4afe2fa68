use one_max_ga::fixed_point::ONE;
use one_max_ga::results::Results;

/// The fixed-point value of a real number.
fn to_fixed(x: f64) -> i64 {
    (x * ONE as f64).round() as i64
}

/// The real number that a fixed-point value holds.
fn to_real(v: i64) -> f64 {
    v as f64 / ONE as f64
}

fn approx_eq(a: f64, b: f64) -> bool {
    (a - b).abs() < 1.0e-6
}

#[test]
fn test_add_result() {
    let mut results = Results::new(100, to_fixed(1.0));
    results.add_result(60, to_fixed(0.8), to_fixed(0.9));

    assert_eq!(results.generations.len(), 1);
    assert_eq!(results.generation_fitnesses.len(), 1);
    assert_eq!(results.best_fitnesses.len(), 1);
}

#[test]
fn test_set_overall_values() {
    let mut results = Results::new(100, to_fixed(1.0));
    results.add_result(1, to_fixed(0.8), to_fixed(0.9));
    results.add_result(2, to_fixed(0.85), to_fixed(0.92));

    assert_eq!(results.total_generations, 2);
    assert!(approx_eq(to_real(results.avg_generation), 1.5));
    assert!(approx_eq(to_real(results.avg_generation_fitness), 0.825));
    assert!(approx_eq(to_real(results.avg_best_fitness), 0.91));
    assert!(approx_eq(to_real(results.best_fitness), 0.92));
}

#[test]
fn test_calculate_ponderate_score() {
    let mut results = Results::new(100, to_fixed(1.0));
    results.add_result(1, to_fixed(0.8), to_fixed(0.9));
    results.add_result(2, to_fixed(0.85), to_fixed(0.92));

    let expected_score = 0.4 * (0.92 / 1.0)
        + 0.1 * (1.0 - (1.5 - 1.0) / 100.0)
        + 0.3 * 0.825
        + 0.2 * (0.91 / 1.0);

    assert!(approx_eq(to_real(results.get_score()), expected_score));
}
