//! The step from one generation to the next: parents are selected, crossed and mutated
//! until the next population is full.

use vstd::prelude::*;
use crate::crossover::{crossover, is_crossover_of, crossed_at, lemma_crossed_children};
use crate::fixed_point::total;
use crate::genome::{is_binary, is_population};
use crate::mutation::{mutate, is_mutation_of, lemma_mutation_stays_binary};
use crate::selection::{
    SelectionMode, mode_of_name, select_parent, is_selection_outcome, is_member,
    lemma_selection_outcome_is_member,
};

verus! {

/// Whether the two children can come out of breeding a pair: two parents are selected from
/// the population, crossed, and each child of the crossing is mutated.
pub open spec fn is_bred_pair(
    first: Seq<u8>,
    second: Seq<u8>,
    population: Seq<Vec<u8>>,
    fitness_values: Seq<i64>,
    mode: SelectionMode,
    crossover_rate: i64,
    mutation_rate: i64,
) -> bool {
    exists|parent1: Seq<u8>, parent2: Seq<u8>, offspring: (Seq<u8>, Seq<u8>)|
        {
            &&& #[trigger] is_crossover_of(offspring, parent1, parent2, crossover_rate)
            &&& is_selection_outcome(parent1, population, fitness_values, mode)
            &&& is_selection_outcome(parent2, population, fitness_values, mode)
            &&& is_mutation_of(first, offspring.0, mutation_rate)
            &&& is_mutation_of(second, offspring.1, mutation_rate)
        }
}

/// Whether the child can come out of breeding a single parent: a parent is selected from
/// the population and mutated, without any crossing.
pub open spec fn is_bred_single(
    child: Seq<u8>,
    population: Seq<Vec<u8>>,
    fitness_values: Seq<i64>,
    mode: SelectionMode,
    mutation_rate: i64,
) -> bool {
    exists|parent: Seq<u8>|
        {
            &&& #[trigger] is_mutation_of(child, parent, mutation_rate)
            &&& is_selection_outcome(parent, population, fitness_values, mode)
        }
}

/// Whether the genomes at `2 * pair` and `2 * pair + 1` of the next population are a bred
/// pair.
pub open spec fn is_bred_pair_at(
    next: Seq<Vec<u8>>,
    pair: int,
    population: Seq<Vec<u8>>,
    fitness_values: Seq<i64>,
    mode: SelectionMode,
    crossover_rate: i64,
    mutation_rate: i64,
) -> bool {
    is_bred_pair(
        next[2 * pair]@,
        next[2 * pair + 1]@,
        population,
        fitness_values,
        mode,
        crossover_rate,
        mutation_rate,
    )
}

/// Whether `next` can be the population that follows `population`: it has
/// `population_size` genomes, made pair by pair from selected, crossed and mutated parents;
/// where `population_size` is odd, the last genome is a selected and mutated parent.
pub open spec fn is_next_population(
    next: Seq<Vec<u8>>,
    population_size: usize,
    population: Seq<Vec<u8>>,
    fitness_values: Seq<i64>,
    mode: SelectionMode,
    crossover_rate: i64,
    mutation_rate: i64,
) -> bool {
    &&& next.len() == population_size
    &&& forall|pair: int|
        0 <= pair < population_size / 2 ==> #[trigger] is_bred_pair_at(
            next,
            pair,
            population,
            fitness_values,
            mode,
            crossover_rate,
            mutation_rate,
        )
    &&& population_size % 2 == 1 ==> is_bred_single(
        next[population_size - 1]@,
        population,
        fitness_values,
        mode,
        mutation_rate,
    )
}

/// Whether a crossing can go wrong for want of a cut point: it cannot where the rate is
/// zero or less, nor where every genome has the same length of at least two genes.
pub open spec fn can_cross(population: Seq<Vec<u8>>, crossover_rate: i64) -> bool {
    crossover_rate > 0 ==> exists|genome_length: nat|
        genome_length >= 2 && #[trigger] has_genome_length(population, genome_length)
}

/// Whether every genome of the population has `genome_length` genes.
pub open spec fn has_genome_length(population: Seq<Vec<u8>>, genome_length: nat) -> bool {
    forall|i: int| 0 <= i < population.len() ==> (#[trigger] population[i])@.len() == genome_length
}

/// A genome bred from a population of binary genomes of one length is binary and has that
/// length.
pub proof fn lemma_bred_pair_is_genome(
    first: Seq<u8>,
    second: Seq<u8>,
    population: Seq<Vec<u8>>,
    fitness_values: Seq<i64>,
    mode: SelectionMode,
    crossover_rate: i64,
    mutation_rate: i64,
    genome_length: nat,
)
    requires
        population.len() > 0,
        is_population(population, genome_length),
        is_bred_pair(first, second, population, fitness_values, mode, crossover_rate, mutation_rate),
    ensures
        first.len() == genome_length,
        second.len() == genome_length,
        is_binary(first),
        is_binary(second),
{
    let (parent1, parent2, offspring) = choose|
        parent1: Seq<u8>,
        parent2: Seq<u8>,
        offspring: (Seq<u8>, Seq<u8>),
    |
        {
            &&& #[trigger] is_crossover_of(offspring, parent1, parent2, crossover_rate)
            &&& is_selection_outcome(parent1, population, fitness_values, mode)
            &&& is_selection_outcome(parent2, population, fitness_values, mode)
            &&& is_mutation_of(first, offspring.0, mutation_rate)
            &&& is_mutation_of(second, offspring.1, mutation_rate)
        };
    lemma_selection_outcome_is_member(parent1, population, fitness_values, mode);
    lemma_selection_outcome_is_member(parent2, population, fitness_values, mode);
    let i1 = choose|i: int| 0 <= i < population.len() && parent1 == (#[trigger] population[i])@;
    let i2 = choose|i: int| 0 <= i < population.len() && parent2 == (#[trigger] population[i])@;
    assert(parent1.len() == genome_length && is_binary(parent1));
    assert(parent2.len() == genome_length && is_binary(parent2));
    if !(offspring.0 == parent1 && offspring.1 == parent2) {
        let point = choose|point: int|
            1 <= point < parent1.len() && #[trigger] crossed_at(offspring, parent1, parent2, point);
        lemma_crossed_children(parent1, parent2, point);
    }
    assert(offspring.0.len() == genome_length);
    assert(offspring.1.len() == genome_length);
    assert(is_binary(offspring.0));
    assert(is_binary(offspring.1));
    lemma_mutation_stays_binary(first, offspring.0, mutation_rate);
    lemma_mutation_stays_binary(second, offspring.1, mutation_rate);
}

/// A genome bred from a single parent of a population of binary genomes of one length is
/// binary and has that length.
pub proof fn lemma_bred_single_is_genome(
    child: Seq<u8>,
    population: Seq<Vec<u8>>,
    fitness_values: Seq<i64>,
    mode: SelectionMode,
    mutation_rate: i64,
    genome_length: nat,
)
    requires
        population.len() > 0,
        is_population(population, genome_length),
        is_bred_single(child, population, fitness_values, mode, mutation_rate),
    ensures
        child.len() == genome_length,
        is_binary(child),
{
    let parent = choose|parent: Seq<u8>|
        {
            &&& #[trigger] is_mutation_of(child, parent, mutation_rate)
            &&& is_selection_outcome(parent, population, fitness_values, mode)
        };
    lemma_selection_outcome_is_member(parent, population, fitness_values, mode);
    let i = choose|i: int| 0 <= i < population.len() && parent == (#[trigger] population[i])@;
    assert(parent.len() == genome_length && is_binary(parent));
    lemma_mutation_stays_binary(child, parent, mutation_rate);
}

/// The population that follows a population of binary genomes of one length is again a
/// population of binary genomes of that length: size and genome length stay as they are from
/// one generation to the next.
pub proof fn lemma_next_population_is_population(
    next: Seq<Vec<u8>>,
    population_size: usize,
    population: Seq<Vec<u8>>,
    fitness_values: Seq<i64>,
    mode: SelectionMode,
    crossover_rate: i64,
    mutation_rate: i64,
    genome_length: nat,
)
    requires
        population.len() > 0,
        is_population(population, genome_length),
        is_next_population(
            next,
            population_size,
            population,
            fitness_values,
            mode,
            crossover_rate,
            mutation_rate,
        ),
    ensures
        next.len() == population_size,
        is_population(next, genome_length),
{
    assert forall|i: int| 0 <= i < next.len() implies (#[trigger] next[i])@.len() == genome_length
        && is_binary(next[i]@) by {
        let pair = i / 2;
        if pair < population_size / 2 {
            assert(is_bred_pair_at(
                next,
                pair,
                population,
                fitness_values,
                mode,
                crossover_rate,
                mutation_rate,
            ));
            lemma_bred_pair_is_genome(
                next[2 * pair]@,
                next[2 * pair + 1]@,
                population,
                fitness_values,
                mode,
                crossover_rate,
                mutation_rate,
                genome_length,
            );
            assert(i == 2 * pair || i == 2 * pair + 1);
        } else {
            assert(i == population_size - 1);
            lemma_bred_single_is_genome(
                next[i]@,
                population,
                fitness_values,
                mode,
                mutation_rate,
                genome_length,
            );
        }
    }
}

/// Breeds the population that follows `population`: selects two parents, crosses them and
/// mutates both children, until `population_size` genomes are made; where `population_size`
/// is odd, the last genome is a single selected parent, mutated and not crossed.
pub fn create_new_population(
    population_size: usize,
    population: &Vec<Vec<u8>>,
    fitness_values: &[i64],
    select_parent_mode: &str,
    crossover_rate: i64,
    mutation_rate: i64,
) -> (new_population: Vec<Vec<u8>>)
    requires
        population_size > 0 ==> population.len() > 0,
        fitness_values.len() == population.len(),
        population_size > 0 && mode_of_name(select_parent_mode@) == SelectionMode::Roulette ==> total(
            fitness_values@,
        ) >= 0,
        population_size >= 2 ==> can_cross(population@, crossover_rate),
    ensures
        is_next_population(
            new_population@,
            population_size,
            population@,
            fitness_values@,
            mode_of_name(select_parent_mode@),
            crossover_rate,
            mutation_rate,
        ),
{
    let ghost mode = mode_of_name(select_parent_mode@);
    let mut new_population: Vec<Vec<u8>> = Vec::new();
    let pairs: usize = population_size / 2;
    let mut pair: usize = 0;
    while pair < pairs
        invariant
            pair <= pairs,
            pairs == population_size / 2,
            population_size > 0 ==> population.len() > 0,
            fitness_values.len() == population.len(),
            mode == mode_of_name(select_parent_mode@),
            population_size > 0 && mode == SelectionMode::Roulette ==> total(fitness_values@) >= 0,
            population_size >= 2 ==> can_cross(population@, crossover_rate),
            new_population.len() == 2 * pair,
            forall|k: int|
                0 <= k < pair ==> #[trigger] is_bred_pair_at(
                    new_population@,
                    k,
                    population@,
                    fitness_values@,
                    mode,
                    crossover_rate,
                    mutation_rate,
                ),
        decreases pairs - pair,
    {
        let parent1: Vec<u8> = select_parent(population, fitness_values, select_parent_mode);
        let parent2: Vec<u8> = select_parent(population, fitness_values, select_parent_mode);
        proof {
            if crossover_rate > 0 {
                let genome_length = choose|genome_length: nat|
                    genome_length >= 2 && #[trigger] has_genome_length(population@, genome_length);
                let i1 = choose|i: int|
                    0 <= i < population@.len() && parent1@ == (#[trigger] population@[i])@;
                let i2 = choose|i: int|
                    0 <= i < population@.len() && parent2@ == (#[trigger] population@[i])@;
                assert(parent1@.len() == genome_length);
                assert(parent2@.len() == genome_length);
            }
        }
        let (offspring1, offspring2) = crossover(parent1.as_slice(), parent2.as_slice(), crossover_rate);
        let child1: Vec<u8> = mutate(offspring1.as_slice(), mutation_rate);
        let child2: Vec<u8> = mutate(offspring2.as_slice(), mutation_rate);
        let ghost before = new_population@;
        new_population.push(child1);
        new_population.push(child2);
        proof {
            assert(is_crossover_of((offspring1@, offspring2@), parent1@, parent2@, crossover_rate));
            assert(is_bred_pair(
                child1@,
                child2@,
                population@,
                fitness_values@,
                mode,
                crossover_rate,
                mutation_rate,
            ));
            assert(new_population@[2 * pair] == child1);
            assert(new_population@[2 * pair + 1] == child2);
            assert forall|k: int| 0 <= k < pair + 1 implies #[trigger] is_bred_pair_at(
                new_population@,
                k,
                population@,
                fitness_values@,
                mode,
                crossover_rate,
                mutation_rate,
            ) by {
                if k < pair {
                    assert(is_bred_pair_at(
                        before,
                        k,
                        population@,
                        fitness_values@,
                        mode,
                        crossover_rate,
                        mutation_rate,
                    ));
                    assert(new_population@[2 * k] == before[2 * k]);
                    assert(new_population@[2 * k + 1] == before[2 * k + 1]);
                }
            }
        }
        pair = pair + 1;
    }
    if population_size % 2 != 0 {
        let parent: Vec<u8> = select_parent(population, fitness_values, select_parent_mode);
        let child: Vec<u8> = mutate(parent.as_slice(), mutation_rate);
        let ghost before = new_population@;
        new_population.push(child);
        proof {
            assert(is_bred_single(child@, population@, fitness_values@, mode, mutation_rate));
            assert(new_population@[population_size - 1] == child);
            assert forall|k: int| 0 <= k < population_size / 2 implies #[trigger] is_bred_pair_at(
                new_population@,
                k,
                population@,
                fitness_values@,
                mode,
                crossover_rate,
                mutation_rate,
            ) by {
                assert(is_bred_pair_at(
                    before,
                    k,
                    population@,
                    fitness_values@,
                    mode,
                    crossover_rate,
                    mutation_rate,
                ));
                assert(new_population@[2 * k] == before[2 * k]);
                assert(new_population@[2 * k + 1] == before[2 * k + 1]);
            }
        }
    }
    new_population
}

} // verus!
