use one_max_ga::fixed_point::{divide, mean_of, sum_of, NEG_INFINITY, ONE};
use one_max_ga::genome::{
    best_position, calculate_population_fitness, get_best_fitness, get_generation_fitness,
    get_genome_fitness, init_population, random_genome,
};
use one_max_ga::random::{chance, gene_of, random_between, random_gene};

#[test]
fn fitness_of_a_genome_without_genes_is_zero() {
    assert_eq!(get_genome_fitness(&[]), 0);
}

#[test]
fn fitness_is_the_share_of_ones_rounded_down() {
    assert_eq!(get_genome_fitness(&[1, 0, 0]), 333_333_333);
    assert_eq!(get_genome_fitness(&[1, 1, 0]), 666_666_666);
    assert_eq!(get_genome_fitness(&[0, 1, 0, 1, 0, 1, 1, 0]), 500_000_000);
    assert_eq!(get_genome_fitness(&[1]), ONE);
    assert_eq!(get_genome_fitness(&[0]), 0);
}

#[test]
fn fitness_of_zeros_is_zero_and_of_ones_is_one_at_any_length() {
    for length in 1..40usize {
        assert_eq!(get_genome_fitness(&vec![0u8; length]), 0);
        assert_eq!(get_genome_fitness(&vec![1u8; length]), ONE);
    }
}

#[test]
fn fitness_of_random_genomes_lies_between_zero_and_one() {
    for length in 0..60usize {
        let genome = random_genome(length);
        let fitness = get_genome_fitness(&genome);
        assert!(0 <= fitness && fitness <= ONE);
    }
}

#[test]
fn fitness_adds_up_the_genes_whatever_they_hold() {
    assert_eq!(get_genome_fitness(&[255, 255]), 255 * ONE);
    assert_eq!(get_genome_fitness(&[2, 0]), ONE);
}

#[test]
fn a_hit_is_a_one_and_a_miss_a_zero() {
    assert_eq!(gene_of(true), 1);
    assert_eq!(gene_of(false), 0);
}

#[test]
fn random_genes_take_both_values() {
    let mut seen = [false, false];
    for _ in 0..200 {
        seen[random_gene() as usize] = true;
    }
    assert!(seen[0] && seen[1]);
}

#[test]
fn random_genomes_hold_about_as_many_ones_as_zeros() {
    let genome = random_genome(100_000);
    let ones = genome.iter().filter(|&&gene| gene == 1).count();
    assert!(48_000 <= ones && ones <= 52_000);
}

#[test]
fn initial_population_is_binary() {
    let population = init_population(20, 7);
    assert_eq!(population.len(), 20);
    for genome in &population {
        assert_eq!(genome.len(), 7);
        assert!(genome.iter().all(|&gene| gene <= 1));
    }
    assert!(init_population(0, 7).is_empty());
    assert!(init_population(3, 0).iter().all(|genome| genome.is_empty()));
}

#[test]
fn population_fitness_keeps_the_order() {
    let population = vec![vec![1, 1], vec![], vec![0, 1], vec![0, 0, 1]];
    assert_eq!(
        calculate_population_fitness(&population),
        vec![ONE, 0, 500_000_000, 333_333_333]
    );
}

#[test]
fn best_fitness_is_the_greatest_value() {
    assert_eq!(get_best_fitness(&[]), NEG_INFINITY);
    assert_eq!(get_best_fitness(&[NEG_INFINITY]), NEG_INFINITY);
    assert_eq!(get_best_fitness(&[-5, -2, -9]), -2);
    assert_eq!(get_best_fitness(&[3, 3, 3]), 3);
    assert_eq!(get_best_fitness(&[i64::MAX, 0]), i64::MAX);
}

#[test]
fn best_position_is_the_first_of_the_best() {
    assert_eq!(best_position(&[1, 7, 3, 7]), 1);
    assert_eq!(best_position(&[9]), 0);
    assert_eq!(best_position(&[0, 0, 0]), 0);
    assert_eq!(best_position(&[-3, -1, -2]), 1);
}

#[test]
fn generation_fitness_is_the_sum_over_the_population_size() {
    assert_eq!(get_generation_fitness(&[500_000_000, 700_000_000, 900_000_000], 3), 700_000_000);
    assert_eq!(get_generation_fitness(&[1, 2], 2), 1);
    assert_eq!(get_generation_fitness(&[ONE, ONE], 4), 500_000_000);
    assert_eq!(get_generation_fitness(&[], 5), 0);
}

#[test]
fn generation_fitness_rounds_toward_zero() {
    assert_eq!(get_generation_fitness(&[-3], 2), -1);
    assert_eq!(get_generation_fitness(&[3], 2), 1);
    assert_eq!(get_generation_fitness(&[-1, -1, -1], 2), -1);
}

#[test]
fn generation_fitness_of_a_population_size_of_zero_is_zero() {
    assert_eq!(get_generation_fitness(&[], 0), 0);
    assert_eq!(get_generation_fitness(&[ONE, ONE], 0), 0);
}

#[test]
fn sums_and_means_of_the_extremes_fit() {
    assert_eq!(sum_of(&[i64::MAX, i64::MAX]), 2 * (i64::MAX as i128));
    assert_eq!(sum_of(&[i64::MIN, i64::MIN]), 2 * (i64::MIN as i128));
    assert_eq!(sum_of(&[]), 0);
    assert_eq!(mean_of(&[i64::MAX, i64::MAX]), i64::MAX);
    assert_eq!(mean_of(&[i64::MIN, i64::MIN, i64::MIN]), i64::MIN);
    assert_eq!(mean_of(&[]), 0);
    assert_eq!(mean_of(&[1, 2]), 1);
    assert_eq!(mean_of(&[-1, -2]), -1);
}

#[test]
fn division_rounds_toward_zero() {
    assert_eq!(divide(7, 2), 3);
    assert_eq!(divide(-7, 2), -3);
    assert_eq!(divide(0, 9), 0);
    assert_eq!(divide(-1, 10), 0);
}

#[test]
fn chance_is_certain_at_the_ends() {
    for _ in 0..100 {
        assert!(!chance(0));
        assert!(!chance(-1));
        assert!(!chance(i64::MIN));
        assert!(chance(ONE));
        assert!(chance(ONE + 1));
        assert!(chance(i64::MAX));
    }
}

#[test]
fn chance_follows_the_rate() {
    let mut hits = 0;
    for _ in 0..100_000 {
        if chance(250_000_000) {
            hits += 1;
        }
    }
    assert!(24_000 <= hits && hits <= 26_000);
}

#[test]
fn random_between_stays_in_the_range_and_reaches_its_ends() {
    let mut seen = [false; 4];
    for _ in 0..1000 {
        let drawn = random_between(5, 8);
        assert!(5 <= drawn && drawn <= 8);
        seen[drawn - 5] = true;
    }
    assert!(seen.iter().all(|&hit| hit));
    assert_eq!(random_between(3, 3), 3);
    assert_eq!(random_between(usize::MAX, usize::MAX), usize::MAX);
}
