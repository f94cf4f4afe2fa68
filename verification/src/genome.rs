//! Genomes, populations and their fitness.
//!
//! A genome is a sequence of genes, each zero or one. Its fitness is the share of its genes
//! that are one.

use vstd::prelude::*;
use crate::fixed_point::{ONE, NEG_INFINITY, quotient, total, lemma_total_bounds, sum_of, divide};
use crate::random::random_gene;

verus! {

/// Whether every gene is zero or one.
pub open spec fn is_binary(genome: Seq<u8>) -> bool {
    forall|i: int| 0 <= i < genome.len() ==> #[trigger] genome[i] <= 1
}

/// The sum of the genes: in a binary genome, the number of ones.
pub open spec fn gene_total(genome: Seq<u8>) -> int
    decreases genome.len(),
{
    if genome.len() == 0 {
        0
    } else {
        gene_total(genome.drop_last()) + genome.last()
    }
}

/// The fitness of a genome: the sum of its genes over their number, rounded down to a
/// fixed-point value; zero for the genome without genes.
pub open spec fn genome_fitness(genome: Seq<u8>) -> int {
    if genome.len() == 0 {
        0
    } else {
        (gene_total(genome) * ONE) / (genome.len() as int)
    }
}

/// Whether every genome of the population is binary and has `genome_length` genes.
pub open spec fn is_population(population: Seq<Vec<u8>>, genome_length: nat) -> bool {
    forall|i: int|
        0 <= i < population.len() ==> (#[trigger] population[i])@.len() == genome_length && is_binary(
            population[i]@,
        )
}

/// Whether the values are the fitness of the genomes of the population, in its order.
pub open spec fn is_fitness_of(fitness_values: Seq<i64>, population: Seq<Vec<u8>>) -> bool {
    &&& fitness_values.len() == population.len()
    &&& forall|i: int|
        0 <= i < population.len() ==> #[trigger] fitness_values[i] == genome_fitness(population[i]@)
}

/// The greatest of the values, and negative infinity when there is none.
pub open spec fn maximum(values: Seq<i64>) -> int
    decreases values.len(),
{
    if values.len() == 0 {
        NEG_INFINITY as int
    } else if maximum(values.drop_last()) <= values.last() {
        values.last() as int
    } else {
        maximum(values.drop_last())
    }
}

/// The sum of the genes lies between zero and 255 times their number; in a binary genome
/// it is at most their number.
pub proof fn lemma_gene_total_bounds(genome: Seq<u8>)
    ensures
        0 <= gene_total(genome) <= 255 * genome.len(),
        is_binary(genome) ==> gene_total(genome) <= genome.len(),
    decreases genome.len(),
{
    if genome.len() > 0 {
        let front = genome.drop_last();
        lemma_gene_total_bounds(front);
        if is_binary(genome) {
            assert forall|i: int| 0 <= i < front.len() implies #[trigger] front[i] <= 1 by {
                assert(front[i] == genome[i]);
            }
            assert(genome[genome.len() - 1] <= 1);
        }
    }
}

/// The fitness of every binary genome lies between zero and one.
pub proof fn lemma_fitness_in_unit_range(genome: Seq<u8>)
    requires
        is_binary(genome),
    ensures
        0 <= genome_fitness(genome) <= ONE,
{
    lemma_gene_total_bounds(genome);
    if genome.len() > 0 {
        let ones = gene_total(genome);
        let genes = genome.len() as int;
        assert(0 <= ones * ONE <= genes * ONE) by (nonlinear_arith)
            requires
                0 <= ones <= genes,
        ;
        assert(0 <= (ones * ONE) / genes <= ONE) by (nonlinear_arith)
            requires
                0 <= ones * ONE <= genes * ONE,
                genes > 0,
        ;
    }
}

/// Every fitness value of a population of binary genomes lies between zero and one.
pub proof fn lemma_population_fitness_in_unit_range(
    fitness_values: Seq<i64>,
    population: Seq<Vec<u8>>,
    genome_length: nat,
)
    requires
        is_population(population, genome_length),
        is_fitness_of(fitness_values, population),
    ensures
        forall|i: int| 0 <= i < fitness_values.len() ==> 0 <= #[trigger] fitness_values[i] <= ONE,
{
    assert forall|i: int| 0 <= i < fitness_values.len() implies 0 <= #[trigger] fitness_values[i]
        <= ONE by {
        assert(is_binary(population[i]@));
        lemma_fitness_in_unit_range(population[i]@);
    }
}

/// A genome of zeros only has fitness zero, whatever its length.
pub proof fn lemma_fitness_of_zeros(genome: Seq<u8>)
    requires
        forall|i: int| 0 <= i < genome.len() ==> genome[i] == 0,
    ensures
        genome_fitness(genome) == 0,
{
    lemma_gene_total_of_constant(genome, 0);
    if genome.len() > 0 {
        assert(0int / (genome.len() as int) == 0) by (nonlinear_arith)
            requires
                genome.len() > 0,
        ;
    }
}

/// A genome of ones only, with at least one gene, has fitness one.
pub proof fn lemma_fitness_of_ones(genome: Seq<u8>)
    requires
        genome.len() > 0,
        forall|i: int| 0 <= i < genome.len() ==> genome[i] == 1,
    ensures
        genome_fitness(genome) == ONE,
{
    lemma_gene_total_of_constant(genome, 1);
    let genes = genome.len() as int;
    assert((genes * ONE) / genes == ONE) by (nonlinear_arith)
        requires
            genes > 0,
    ;
}

/// The genes of a genome that holds one value only add up to that value times their number.
proof fn lemma_gene_total_of_constant(genome: Seq<u8>, gene: u8)
    requires
        forall|i: int| 0 <= i < genome.len() ==> genome[i] == gene,
    ensures
        gene_total(genome) == genome.len() * gene,
    decreases genome.len(),
{
    if genome.len() > 0 {
        let front = genome.drop_last();
        assert forall|i: int| 0 <= i < front.len() implies front[i] == gene by {
            assert(front[i] == genome[i]);
        }
        lemma_gene_total_of_constant(front, gene);
        assert(genome.len() * gene == front.len() * gene + gene) by (nonlinear_arith)
            requires
                genome.len() == front.len() + 1,
        ;
    } else {
        assert(genome.len() * gene == 0) by (nonlinear_arith)
            requires
                genome.len() == 0,
        ;
    }
}

/// The greatest value is one of the values, and none exceeds it.
pub proof fn lemma_maximum_is_greatest(values: Seq<i64>)
    requires
        values.len() > 0,
    ensures
        exists|i: int| 0 <= i < values.len() && values[i] == maximum(values),
        forall|i: int| 0 <= i < values.len() ==> values[i] <= maximum(values),
    decreases values.len(),
{
    let front = values.drop_last();
    if front.len() > 0 {
        lemma_maximum_is_greatest(front);
        let k = choose|i: int| 0 <= i < front.len() && front[i] == maximum(front);
        assert(values[k] == front[k]);
        assert forall|i: int| 0 <= i < values.len() implies values[i] <= maximum(values) by {
            if i < front.len() {
                assert(values[i] == front[i]);
            }
        }
        if maximum(front) <= values.last() {
            assert(values[values.len() - 1] == maximum(values));
        } else {
            assert(values[k] == maximum(values));
        }
    } else {
        assert(maximum(front) == NEG_INFINITY);
        assert(values[0] == maximum(values));
    }
}

/// A genome of `length` random genes.
pub fn random_genome(length: usize) -> (genome: Vec<u8>)
    ensures
        genome.len() == length,
        is_binary(genome@),
{
    let mut genome: Vec<u8> = Vec::with_capacity(length);
    let mut i: usize = 0;
    while i < length
        invariant
            i <= length,
            genome.len() == i,
            is_binary(genome@),
        decreases length - i,
    {
        let gene: u8 = random_gene();
        genome.push(gene);
        i = i + 1;
    }
    genome
}

/// A population of `population_size` random genomes of `genome_length` genes each.
pub fn init_population(population_size: usize, genome_length: usize) -> (population: Vec<Vec<u8>>)
    ensures
        population.len() == population_size,
        is_population(population@, genome_length as nat),
{
    let mut population: Vec<Vec<u8>> = Vec::with_capacity(population_size);
    let mut i: usize = 0;
    while i < population_size
        invariant
            i <= population_size,
            population.len() == i,
            is_population(population@, genome_length as nat),
        decreases population_size - i,
    {
        let genome: Vec<u8> = random_genome(genome_length);
        population.push(genome);
        i = i + 1;
    }
    population
}

/// The fitness of a genome: the share of its genes that are one. A genome without genes has
/// fitness zero.
pub fn get_genome_fitness(genome: &[u8]) -> (fitness: i64)
    ensures
        fitness == genome_fitness(genome@),
        is_binary(genome@) ==> 0 <= fitness <= ONE,
{
    let mut sum: u128 = 0;
    let mut i: usize = 0;
    while i < genome.len()
        invariant
            i <= genome.len(),
            sum == gene_total(genome@.take(i as int)),
            sum <= 255 * i,
        decreases genome.len() - i,
    {
        proof {
            assert(genome@.take(i + 1).drop_last() =~= genome@.take(i as int));
        }
        sum = sum + genome[i] as u128;
        i = i + 1;
    }
    proof {
        assert(genome@.take(i as int) =~= genome@);
        if is_binary(genome@) {
            lemma_fitness_in_unit_range(genome@);
        }
    }
    if genome.len() == 0 {
        return 0;
    }
    let genes: u128 = genome.len() as u128;
    proof {
        assert(sum * ONE <= 255 * genes * ONE) by (nonlinear_arith)
            requires
                sum <= 255 * genes,
        ;
        assert((sum * ONE) / (genes as int) <= 255 * ONE) by (nonlinear_arith)
            requires
                sum * ONE <= 255 * genes * ONE,
                genes > 0,
        ;
    }
    ((sum * (ONE as u128)) / genes) as i64
}

/// The fitness of each genome of the population, in the population's order.
pub fn calculate_population_fitness(population: &Vec<Vec<u8>>) -> (fitness_values: Vec<i64>)
    ensures
        is_fitness_of(fitness_values@, population@),
{
    let mut fitness_values: Vec<i64> = Vec::with_capacity(population.len());
    let mut i: usize = 0;
    while i < population.len()
        invariant
            i <= population.len(),
            fitness_values.len() == i,
            forall|j: int| 0 <= j < i ==> #[trigger] fitness_values[j] == genome_fitness(population[j]@),
        decreases population.len() - i,
    {
        let genome_fitness: i64 = get_genome_fitness(population[i].as_slice());
        fitness_values.push(genome_fitness);
        i = i + 1;
    }
    fitness_values
}

/// The fitness of a perfect genome: one.
pub fn get_target_fitness() -> (target: i64)
    ensures
        target == ONE,
{
    ONE
}

/// The greatest of the fitness values. Without any value the result is negative infinity.
pub fn get_best_fitness(fitnesses_values: &[i64]) -> (best: i64)
    ensures
        best == maximum(fitnesses_values@),
{
    let mut best: i64 = NEG_INFINITY;
    let mut i: usize = 0;
    while i < fitnesses_values.len()
        invariant
            i <= fitnesses_values.len(),
            best == maximum(fitnesses_values@.take(i as int)),
        decreases fitnesses_values.len() - i,
    {
        proof {
            assert(fitnesses_values@.take(i + 1).drop_last() =~= fitnesses_values@.take(i as int));
        }
        if best <= fitnesses_values[i] {
            best = fitnesses_values[i];
        }
        i = i + 1;
    }
    proof {
        assert(fitnesses_values@.take(i as int) =~= fitnesses_values@);
    }
    best
}

/// The place of the fittest genome: the first index at which the greatest fitness value
/// stands.
pub fn best_position(fitness_values: &[i64]) -> (position: usize)
    requires
        fitness_values.len() > 0,
    ensures
        position < fitness_values.len(),
        fitness_values[position as int] == maximum(fitness_values@),
        forall|i: int| 0 <= i < position ==> fitness_values[i] < maximum(fitness_values@),
{
    let best: i64 = get_best_fitness(fitness_values);
    proof {
        lemma_maximum_is_greatest(fitness_values@);
    }
    let mut i: usize = 0;
    while fitness_values[i] != best
        invariant
            i < fitness_values.len(),
            best == maximum(fitness_values@),
            exists|k: int| i <= k < fitness_values.len() && fitness_values[k] == best,
            forall|k: int| 0 <= k < fitness_values.len() ==> fitness_values[k] <= best,
            forall|k: int| 0 <= k < i ==> fitness_values[k] < best,
        decreases fitness_values.len() - i,
    {
        i = i + 1;
    }
    i
}

/// The fitness of a generation: the sum of the fitness values over the population size,
/// rounded toward zero. It is zero for a population size of zero.
pub open spec fn generation_fitness(fitnesses_values: Seq<i64>, population_size: usize) -> int {
    if population_size == 0 {
        0
    } else {
        quotient(total(fitnesses_values), population_size as int)
    }
}

/// The fitness of a generation: the mean of the fitness values of a population of
/// `population_size` genomes, and zero when `population_size` is zero. The mean has to be
/// a value that an `i64` holds, as the mean of a population's own fitness values always is.
pub fn get_generation_fitness(fitnesses_values: &[i64], population_size: usize) -> (fitness: i64)
    requires
        i64::MIN <= generation_fitness(fitnesses_values@, population_size) <= i64::MAX,
    ensures
        fitness == generation_fitness(fitnesses_values@, population_size),
{
    if population_size == 0 {
        return 0;
    }
    let sum: i128 = sum_of(fitnesses_values);
    divide(sum, population_size as i128) as i64
}

} // verus!
