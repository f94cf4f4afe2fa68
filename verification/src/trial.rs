//! One trial of the genetic algorithm: from a random population, generation after
//! generation, until a generation is fit enough or the generations are used up.

use vstd::prelude::*;
use crate::breeding::{
    create_new_population, is_next_population, can_cross, has_genome_length,
    lemma_next_population_is_population,
};
use crate::fixed_point::{
    ONE, NEG_INFINITY, total, quotient, lemma_total_between, lemma_quotient_between,
};
use crate::genome::{
    init_population, calculate_population_fitness, get_best_fitness, get_generation_fitness,
    get_target_fitness, generation_fitness, maximum, is_population, is_fitness_of,
    lemma_population_fitness_in_unit_range, lemma_maximum_is_greatest,
};
use crate::selection::{SelectionMode, selection_mode, mode_of_name};

verus! {

/// A trial in progress.
pub struct Trial {
    /// The number of genomes of every generation.
    pub population_size: usize,
    /// The number of genes of every genome.
    pub genome_length: usize,
    /// The number of generations the trial may breed.
    pub max_generations: u32,
    /// The probability that a gene is flipped.
    pub mutation_rate: i64,
    /// The probability that two parents are crossed.
    pub crossover_rate: i64,
    /// How parents are selected.
    pub mode: SelectionMode,
    /// The generation fitness from which on a generation with a perfect genome ends the trial.
    pub target_generation_fitness: i64,
    /// The current population.
    pub population: Vec<Vec<u8>>,
    /// The fitness of each genome of the current population.
    pub fitness_values: Vec<i64>,
    /// The number of generations bred so far. The generation bred next has this index.
    pub generation: u32,
    /// The index of the generation with the greatest generation fitness so far.
    pub best_generation: u32,
    /// The generation fitness of that generation.
    pub best_generation_fitness: i64,
    /// The best fitness in that generation.
    pub best_fitness: i64,
    /// The outcome, once the trial has stopped: a generation's index, its generation
    /// fitness and the best fitness in it.
    pub outcome: Option<(u32, i64, i64)>,
}

/// Whether a generation ends the trial: its generation fitness has reached the target and
/// its best genome is perfect.
pub open spec fn is_converged(
    generation_fitness: int,
    best_fitness: int,
    target_generation_fitness: int,
) -> bool {
    generation_fitness >= target_generation_fitness && best_fitness == ONE
}

/// The best generation on record once a generation is bred: the new generation where its
/// generation fitness is not below that of the generation on record, else the generation on
/// record.
pub open spec fn recorded_after(
    record: (u32, i64, i64),
    generation: u32,
    generation_fitness: i64,
    best_fitness: i64,
) -> (u32, i64, i64) {
    if generation_fitness >= record.1 {
        (generation, generation_fitness, best_fitness)
    } else {
        record
    }
}

/// Whether the two values can be the generation fitness and the best fitness of a generation
/// of `population_size` binary genomes: the generation fitness lies between zero and one and
/// is not above the best fitness, which is at most one. Without any genome the generation
/// fitness is zero and the best fitness is negative infinity.
pub open spec fn is_generation_report(report: (i64, i64), population_size: usize) -> bool {
    if population_size == 0 {
        report == (0i64, NEG_INFINITY)
    } else {
        0 <= report.0 <= report.1 <= ONE
    }
}

/// The best generation on record after the generations of a history, each given by its
/// generation fitness and its best fitness: the generation with the greatest generation
/// fitness, the latest of several, and zero three times before any generation.
pub open spec fn record_of(history: Seq<(i64, i64)>) -> (u32, i64, i64)
    decreases history.len(),
{
    if history.len() == 0 {
        (0u32, 0i64, 0i64)
    } else {
        recorded_after(
            record_of(history.drop_last()),
            (history.len() - 1) as u32,
            history.last().0,
            history.last().1,
        )
    }
}

/// Whether the generation at `index` of the history has converged.
pub open spec fn is_converged_at(
    history: Seq<(i64, i64)>,
    index: int,
    target_generation_fitness: i64,
) -> bool {
    is_converged(history[index].0 as int, history[index].1 as int, target_generation_fitness as int)
}

/// Whether the history is that of a whole trial: every generation in it is one that a
/// population of `population_size` can have, no more than `max_generations` are bred, none
/// but the last has converged, and the last has converged where fewer than
/// `max_generations` are bred.
pub open spec fn is_trial_run(
    history: Seq<(i64, i64)>,
    population_size: usize,
    max_generations: u32,
    target_generation_fitness: i64,
) -> bool {
    &&& history.len() <= max_generations
    &&& forall|i: int|
        0 <= i < history.len() ==> is_generation_report(#[trigger] history[i], population_size)
    &&& forall|i: int|
        0 <= i < history.len() - 1 ==> !#[trigger] is_converged_at(history, i, target_generation_fitness)
    &&& history.len() < max_generations ==> history.len() > 0 && is_converged_at(
        history,
        history.len() - 1,
        target_generation_fitness,
    )
}

/// The outcome of a trial with the given history: the last generation where it has
/// converged, else the best generation on record.
pub open spec fn outcome_of(history: Seq<(i64, i64)>, target_generation_fitness: i64) -> (u32, i64, i64) {
    if history.len() > 0 && is_converged_at(history, history.len() - 1, target_generation_fitness) {
        ((history.len() - 1) as u32, history.last().0, history.last().1)
    } else {
        record_of(history)
    }
}

/// The generation fitness and the best fitness of a population of binary genomes are a
/// generation's report.
pub proof fn lemma_population_gives_report(
    fitness_values: Seq<i64>,
    population: Seq<Vec<u8>>,
    genome_length: nat,
    population_size: usize,
)
    requires
        population.len() == population_size,
        is_population(population, genome_length),
        is_fitness_of(fitness_values, population),
    ensures
        i64::MIN <= generation_fitness(fitness_values, population_size) <= i64::MAX,
        i64::MIN <= maximum(fitness_values) <= i64::MAX,
        is_generation_report(
            (
                generation_fitness(fitness_values, population_size) as i64,
                maximum(fitness_values) as i64,
            ),
            population_size,
        ),
{
    lemma_population_fitness_in_unit_range(fitness_values, population, genome_length);
    if population_size > 0 {
        lemma_maximum_is_greatest(fitness_values);
        let greatest = maximum(fitness_values);
        lemma_total_between(fitness_values, 0, greatest);
        lemma_quotient_between(total(fitness_values), population_size as int, 0, greatest);
    } else {
        assert(fitness_values.len() == 0);
    }
}

/// The record of a history is one of its generations: no generation has a greater
/// generation fitness, and every generation after it has a smaller one.
pub proof fn lemma_record_of_is_in_history(history: Seq<(i64, i64)>)
    requires
        history.len() > 0,
        history.len() <= u32::MAX,
        forall|i: int| 0 <= i < history.len() ==> (#[trigger] history[i]).0 >= 0,
    ensures
        0 <= record_of(history).0 < history.len(),
        record_of(history).1 == history[record_of(history).0 as int].0,
        record_of(history).2 == history[record_of(history).0 as int].1,
        forall|i: int| 0 <= i < history.len() ==> (#[trigger] history[i]).0 <= record_of(history).1,
        forall|i: int|
            record_of(history).0 < i < history.len() ==> (#[trigger] history[i]).0 < record_of(
                history,
            ).1,
    decreases history.len(),
{
    let front = history.drop_last();
    if front.len() > 0 {
        assert forall|i: int| 0 <= i < front.len() implies (#[trigger] front[i]).0 >= 0 by {
            assert(front[i] == history[i]);
        }
        lemma_record_of_is_in_history(front);
        assert forall|i: int| 0 <= i < history.len() implies (#[trigger] history[i]).0 <= record_of(
            history,
        ).1 by {
            if i < front.len() {
                assert(front[i] == history[i]);
            }
        }
        assert forall|i: int| record_of(history).0 < i < history.len() implies (
        #[trigger] history[i]).0 < record_of(history).1 by {
            if i < front.len() {
                assert(front[i] == history[i]);
            }
        }
        assert(front[record_of(front).0 as int] == history[record_of(front).0 as int]);
    } else {
        assert(record_of(front) == (0u32, 0i64, 0i64));
        assert(history[0].0 >= 0);
    }
}

impl Trial {
    /// The best generation on record: its index, its generation fitness and the best
    /// fitness in it.
    pub open spec fn record(&self) -> (u32, i64, i64) {
        (self.best_generation, self.best_generation_fitness, self.best_fitness)
    }

    /// Whether the trial has the same configuration as `other`.
    pub open spec fn same_configuration(&self, other: &Trial) -> bool {
        &&& self.population_size == other.population_size
        &&& self.genome_length == other.genome_length
        &&& self.max_generations == other.max_generations
        &&& self.mutation_rate == other.mutation_rate
        &&& self.crossover_rate == other.crossover_rate
        &&& self.mode == other.mode
        &&& self.target_generation_fitness == other.target_generation_fitness
    }

    /// Whether a generation's index and fitness values may be reported by this trial: the
    /// index is that of a generation bred so far, the generation fitness lies between zero
    /// and one, and so does the best fitness, which is not below the generation fitness,
    /// unless the population is empty.
    pub open spec fn is_report(&self, report: (u32, i64, i64)) -> bool {
        &&& report.0 < self.generation || (report.0 == 0 && self.generation == 0)
        &&& 0 <= report.1 <= ONE
        &&& self.population_size > 0 ==> report.1 <= report.2 <= ONE
    }

    /// The invariant of a trial. The population has the configured size, its genomes are
    /// binary and have the configured length, and the fitness values are theirs. No more
    /// generations are bred than the trial may breed. The record is a valid report. The
    /// trial has an outcome exactly when it has stopped: either the last generation bred
    /// has converged and is the outcome, or the generations are used up and the record is
    /// the outcome.
    pub open spec fn wf(&self) -> bool {
        &&& self.population@.len() == self.population_size
        &&& is_population(self.population@, self.genome_length as nat)
        &&& is_fitness_of(self.fitness_values@, self.population@)
        &&& self.population_size >= 2 && self.crossover_rate > 0 ==> self.genome_length >= 2
        &&& self.generation <= self.max_generations
        &&& self.is_report(self.record())
        &&& match self.outcome {
            None => self.generation < self.max_generations,
            Some(outcome) => {
                &&& self.is_report(outcome)
                &&& {
                    ||| {
                        &&& self.generation > 0
                        &&& outcome.0 == self.generation - 1
                        &&& is_converged(
                            outcome.1 as int,
                            outcome.2 as int,
                            self.target_generation_fitness as int,
                        )
                    }
                    ||| {
                        &&& self.generation == self.max_generations
                        &&& outcome == self.record()
                    }
                }
            },
        }
    }

    /// Starts a trial with a random population. Nothing is bred yet; the record holds
    /// generation zero with a fitness of zero. A trial that may breed no generation has
    /// stopped at once, with that record as its outcome.
    ///
    /// Parents can only be crossed where a genome has at least two genes.
    pub fn new(
        population_size: usize,
        genome_length: usize,
        max_generations: u32,
        mutation_rate: i64,
        crossover_rate: i64,
        mode: SelectionMode,
        target_generation_fitness: i64,
    ) -> (trial: Trial)
        requires
            population_size >= 2 && crossover_rate > 0 ==> genome_length >= 2,
        ensures
            trial.wf(),
            trial.population_size == population_size,
            trial.genome_length == genome_length,
            trial.max_generations == max_generations,
            trial.mutation_rate == mutation_rate,
            trial.crossover_rate == crossover_rate,
            trial.mode == mode,
            trial.target_generation_fitness == target_generation_fitness,
            trial.generation == 0,
            trial.record() == (0u32, 0i64, 0i64),
            trial.outcome == if max_generations == 0 {
                Some((0u32, 0i64, 0i64))
            } else {
                None
            },
    {
        let population: Vec<Vec<u8>> = init_population(population_size, genome_length);
        let fitness_values: Vec<i64> = calculate_population_fitness(&population);
        let outcome: Option<(u32, i64, i64)> = if max_generations == 0 {
            Some((0, 0, 0))
        } else {
            None
        };
        Trial {
            population_size,
            genome_length,
            max_generations,
            mutation_rate,
            crossover_rate,
            mode,
            target_generation_fitness,
            population,
            fitness_values,
            generation: 0,
            best_generation: 0,
            best_generation_fitness: 0,
            best_fitness: 0,
            outcome,
        }
    }

    /// Whether the trial has stopped.
    pub fn is_finished(&self) -> (finished: bool)
        ensures
            finished == self.outcome.is_some(),
    {
        self.outcome.is_some()
    }

    /// Breeds the next generation and evaluates it. The new generation goes on record where
    /// its generation fitness is not below the record's. The trial stops where the new
    /// generation has converged, with that generation as its outcome, and where the
    /// generations are used up, with the record as its outcome.
    pub fn step(&mut self)
        requires
            old(self).wf(),
            old(self).outcome.is_none(),
        ensures
            final(self).wf(),
            final(self).same_configuration(old(self)),
            final(self).generation == old(self).generation + 1,
            is_next_population(
                final(self).population@,
                old(self).population_size,
                old(self).population@,
                old(self).fitness_values@,
                old(self).mode,
                old(self).crossover_rate,
                old(self).mutation_rate,
            ),
            final(self).record() == recorded_after(
                old(self).record(),
                old(self).generation,
                generation_fitness(final(self).fitness_values@, old(self).population_size) as i64,
                maximum(final(self).fitness_values@) as i64,
            ),
            final(self).outcome == if is_converged(
                generation_fitness(final(self).fitness_values@, old(self).population_size),
                maximum(final(self).fitness_values@),
                old(self).target_generation_fitness as int,
            ) {
                Some(
                    (
                        old(self).generation,
                        generation_fitness(final(self).fitness_values@, old(self).population_size) as i64,
                        maximum(final(self).fitness_values@) as i64,
                    ),
                )
            } else if final(self).generation == old(self).max_generations {
                Some(final(self).record())
            } else {
                None
            },
    {
        proof {
            lemma_population_fitness_in_unit_range(
                self.fitness_values@,
                self.population@,
                self.genome_length as nat,
            );
            lemma_total_between(self.fitness_values@, 0, ONE as int);
            assert(has_genome_length(self.population@, self.genome_length as nat));
        }
        let next: Vec<Vec<u8>> = create_new_population(
            self.population_size,
            &self.population,
            self.fitness_values.as_slice(),
            self.mode.name(),
            self.crossover_rate,
            self.mutation_rate,
        );
        proof {
            if self.population_size > 0 {
                lemma_next_population_is_population(
                    next@,
                    self.population_size,
                    self.population@,
                    self.fitness_values@,
                    self.mode,
                    self.crossover_rate,
                    self.mutation_rate,
                    self.genome_length as nat,
                );
            }
        }
        let fitness_values: Vec<i64> = calculate_population_fitness(&next);
        proof {
            lemma_population_fitness_in_unit_range(fitness_values@, next@, self.genome_length as nat);
            lemma_total_between(fitness_values@, 0, ONE as int);
            if self.population_size > 0 {
                lemma_quotient_between(
                    total(fitness_values@),
                    self.population_size as int,
                    0,
                    ONE as int,
                );
                lemma_maximum_is_greatest(fitness_values@);
                let greatest = maximum(fitness_values@);
                lemma_total_between(fitness_values@, 0, greatest);
                lemma_quotient_between(
                    total(fitness_values@),
                    self.population_size as int,
                    0,
                    greatest,
                );
            }
        }
        let generation_fitness: i64 = get_generation_fitness(
            fitness_values.as_slice(),
            self.population_size,
        );
        let best_gen_fitness: i64 = get_best_fitness(fitness_values.as_slice());
        let generation: u32 = self.generation;
        self.population = next;
        self.fitness_values = fitness_values;
        self.generation = generation + 1;
        if generation_fitness >= self.best_generation_fitness {
            self.best_generation = generation;
            self.best_generation_fitness = generation_fitness;
            self.best_fitness = best_gen_fitness;
        }
        if generation_fitness >= self.target_generation_fitness && best_gen_fitness
            == get_target_fitness() {
            self.outcome = Some((generation, generation_fitness, best_gen_fitness));
        } else if self.generation == self.max_generations {
            self.outcome = Some((self.best_generation, self.best_generation_fitness, self.best_fitness));
        }
    }
}

/// Runs one trial to its end: breeds generation after generation from a random population
/// until a generation has converged or `max_generations` are bred. Returns the index of a
/// generation, its generation fitness and the best fitness in it: those of the generation
/// that converged, else those of the generation with the greatest generation fitness, the
/// latest of several. A trial that may breed no generation returns zero three times.
///
/// Parents can only be crossed where a genome has at least two genes.
pub fn genetic_algorithm(
    population_size: usize,
    genome_length: usize,
    max_generations: u32,
    mutation_rate: i64,
    crossover_rate: i64,
    select_parent_mode: &str,
    target_generation_fitness: i64,
) -> (outcome: (u32, i64, i64))
    requires
        population_size >= 2 && crossover_rate > 0 ==> genome_length >= 2,
    ensures
        exists|history: Seq<(i64, i64)>| #[trigger]
            is_trial_run(history, population_size, max_generations, target_generation_fitness)
                && outcome == outcome_of(history, target_generation_fitness),
        max_generations == 0 ==> outcome == (0u32, 0i64, 0i64),
        max_generations > 0 ==> outcome.0 < max_generations,
        0 <= outcome.1 <= ONE,
        population_size > 0 ==> outcome.1 <= outcome.2 <= ONE,
{
    let mut trial = Trial::new(
        population_size,
        genome_length,
        max_generations,
        mutation_rate,
        crossover_rate,
        selection_mode(select_parent_mode),
        target_generation_fitness,
    );
    let ghost mut history: Seq<(i64, i64)> = Seq::empty();
    while !trial.is_finished()
        invariant
            trial.wf(),
            trial.population_size == population_size,
            trial.max_generations == max_generations,
            trial.target_generation_fitness == target_generation_fitness,
            max_generations == 0 ==> trial.outcome == Some((0u32, 0i64, 0i64)),
            history.len() == trial.generation,
            forall|i: int|
                0 <= i < history.len() ==> is_generation_report(#[trigger] history[i], population_size),
            forall|i: int|
                0 <= i < history.len() - 1 ==> !#[trigger] is_converged_at(
                    history,
                    i,
                    target_generation_fitness,
                ),
            trial.record() == record_of(history),
            trial.outcome == if history.len() > 0 && is_converged_at(
                history,
                history.len() - 1,
                target_generation_fitness,
            ) {
                Some(((history.len() - 1) as u32, history.last().0, history.last().1))
            } else if history.len() == max_generations {
                Some(record_of(history))
            } else {
                None
            },
        decreases trial.max_generations - trial.generation,
    {
        let ghost before = history;
        trial.step();
        proof {
            lemma_population_gives_report(
                trial.fitness_values@,
                trial.population@,
                trial.genome_length as nat,
                population_size,
            );
            let report = (
                generation_fitness(trial.fitness_values@, population_size) as i64,
                maximum(trial.fitness_values@) as i64,
            );
            history = before.push(report);
            assert(history.drop_last() =~= before);
            assert(history.last() == report);
            assert forall|i: int| 0 <= i < history.len() implies is_generation_report(
                #[trigger] history[i],
                population_size,
            ) by {
                if i < before.len() {
                    assert(history[i] == before[i]);
                }
            }
            assert forall|i: int| 0 <= i < history.len() - 1 implies !#[trigger] is_converged_at(
                history,
                i,
                target_generation_fitness,
            ) by {
                assert(history[i] == before[i]);
                if i < before.len() - 1 {
                    assert(!is_converged_at(before, i, target_generation_fitness));
                } else {
                    assert(!is_converged_at(before, before.len() - 1, target_generation_fitness));
                }
            }
        }
    }
    proof {
        assert(is_trial_run(history, population_size, max_generations, target_generation_fitness));
    }
    match trial.outcome {
        Some(outcome) => {
            assert(outcome == outcome_of(history, target_generation_fitness));
            outcome
        },
        None => (0, 0, 0),
    }
}

} // verus!
