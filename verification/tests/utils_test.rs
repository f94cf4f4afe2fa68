use one_max_ga::fixed_point::ONE;
use one_max_ga::utils::{distribute_run_times, generate_equally_spaced_values};

/// The fixed-point value of a real number.
fn to_fixed(x: f64) -> i64 {
    (x * ONE as f64).round() as i64
}

fn to_reals(values: &[i64]) -> Vec<f64> {
    values.iter().map(|&v| v as f64 / ONE as f64).collect()
}

#[test]
fn test_generate_equally_spaced_values_custom_values() {
    let min_val = to_fixed(2.0);
    let max_val = to_fixed(5.0);
    let length = 4;
    let expected_values = vec![2.0, 3.0, 4.0, 5.0];
    assert_eq!(
        to_reals(&generate_equally_spaced_values(min_val, max_val, length, false)),
        expected_values
    );
}

#[test]
fn test_generate_equally_spaced_values_edge_case_length_1() {
    let min_val = to_fixed(2.0);
    let max_val = to_fixed(5.0);
    let length = 1;
    let expected_values = vec![2.0];
    assert_eq!(
        to_reals(&generate_equally_spaced_values(min_val, max_val, length, false)),
        expected_values
    );
}

#[test]
fn test_generate_equally_spaced_values_edge_case_same_values() {
    let min_val = to_fixed(3.0);
    let max_val = to_fixed(3.0);
    let length = 5;
    let expected_values = vec![3.0, 3.0, 3.0, 3.0, 3.0];
    assert_eq!(
        to_reals(&generate_equally_spaced_values(min_val, max_val, length, false)),
        expected_values
    );
}

#[test]
fn test_generate_equally_spaced_values_invert_parameter() {
    let min_val = to_fixed(2.0);
    let max_val = to_fixed(5.0);
    let length = 4;
    let expected_values = vec![5.0, 4.0, 3.0, 2.0];
    assert_eq!(
        to_reals(&generate_equally_spaced_values(min_val, max_val, length, true)),
        expected_values
    );
}

#[test]
fn test_distribute_run_times_distribution_even() {
    let num_processes = 4;
    let run_times = 12;
    let expected_result = vec![4, 4, 4];
    assert_eq!(
        distribute_run_times(num_processes, run_times),
        expected_result
    );
}

#[test]
fn test_distribute_run_times_distribution_remainder() {
    let num_processes = 3;
    let run_times = 10;
    let expected_result = vec![3, 3, 3, 1];
    assert_eq!(
        distribute_run_times(num_processes, run_times),
        expected_result
    );
}

#[test]
fn test_distribute_run_times_distribution_single_process() {
    let num_processes = 1;
    let run_times = 10;
    let expected_result = vec![1, 1, 1, 1, 1, 1, 1, 1, 1, 1];
    assert_eq!(
        distribute_run_times(num_processes, run_times),
        expected_result
    );
}

#[test]
fn test_distribute_run_times_distribution_small_input() {
    let num_processes = 2;
    let run_times = 3;
    let expected_result = vec![2, 1];
    assert_eq!(
        distribute_run_times(num_processes, run_times),
        expected_result
    );
}

#[test]
fn test_distribute_run_times_distribution_bigger_process_pool() {
    let num_processes = 10;
    let run_times = 3;
    let expected_result = vec![3];
    assert_eq!(
        distribute_run_times(num_processes, run_times),
        expected_result
    );
}
