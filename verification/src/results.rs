//! The outcomes of the trials that were run for one pair of rates, and the score that sums
//! them up.

use vstd::prelude::*;
use crate::fixed_point::{
    ONE, quotient, mean, divide, mean_of, lemma_quotient_shrinks, lemma_mean_between,
};
use crate::genome::{maximum, get_best_fitness, lemma_maximum_is_greatest};

verus! {

/// The weight, in tenths, of the greatest best fitness in the score.
pub const WEIGHT_BEST_FITNESS: i64 = 4;

/// The weight, in tenths, of the mean generation fitness in the score.
pub const WEIGHT_AVG_GENERATION_FITNESS: i64 = 3;

/// The weight, in tenths, of the mean best fitness in the score.
pub const WEIGHT_AVG_BEST_FITNESS: i64 = 2;

/// The weight, in tenths, of the mean number of generations in the score.
pub const WEIGHT_AVG_GENERATION: i64 = 1;

/// The outcomes of the trials run for one pair of rates. Each trial adds the generation it
/// stopped at, the fitness of that generation and the best fitness in it; the other fields
/// sum the trials up and are recomputed whenever one is added.
#[derive(Clone)]
pub struct Results {
    /// The number of generations a trial may run.
    pub max_generations: u32,
    /// The fitness of a perfect genome.
    pub max_fitness: i64,
    /// The generation each trial stopped at.
    pub generations: Vec<u32>,
    /// The generation fitness each trial reported.
    pub generation_fitnesses: Vec<i64>,
    /// The best fitness each trial reported.
    pub best_fitnesses: Vec<i64>,
    /// The weighted score of the trials so far.
    pub score: i64,
    /// The number of trials so far.
    pub total_generations: usize,
    /// The mean of `generations`.
    pub avg_generation: i64,
    /// The mean of `generation_fitnesses`.
    pub avg_generation_fitness: i64,
    /// The mean of `best_fitnesses`.
    pub avg_best_fitness: i64,
    /// The greatest of `best_fitnesses`.
    pub best_fitness: i64,
}

/// The sum of the generations.
pub open spec fn generations_run(generations: Seq<u32>) -> int
    decreases generations.len(),
{
    if generations.len() == 0 {
        0
    } else {
        generations_run(generations.drop_last()) + generations.last()
    }
}

/// The mean of the generations as a fixed-point value, rounded down; without any trial it
/// is `max_generations`.
pub open spec fn average_generation(generations: Seq<u32>, max_generations: u32) -> int {
    if generations.len() == 0 {
        max_generations * ONE
    } else {
        (generations_run(generations) * ONE) / (generations.len() as int)
    }
}

/// The greatest of the values, and zero when there is none.
pub open spec fn greatest_or_zero(values: Seq<i64>) -> int {
    if values.len() == 0 {
        0
    } else {
        maximum(values)
    }
}

/// The weighted score: four tenths of the greatest best fitness over the perfect fitness,
/// one tenth of one minus the mean generation less one over the generation cap, three tenths
/// of the mean generation fitness, and two tenths of the mean best fitness over the perfect
/// fitness. Every division rounds toward zero. The generation term is not clamped: a mean
/// generation far above the cap makes it, and the score, negative.
pub open spec fn ponderate_score(
    best_fitness: int,
    avg_generation: int,
    avg_generation_fitness: int,
    avg_best_fitness: int,
    max_generations: int,
    max_fitness: int,
) -> int {
    let score_best_fitness = quotient(best_fitness * ONE, max_fitness);
    let score_avg_generation = ONE - quotient(avg_generation - ONE, max_generations);
    let score_avg_generation_fitness = avg_generation_fitness;
    let score_avg_best_fitness = quotient(avg_best_fitness * ONE, max_fitness);
    quotient(
        WEIGHT_BEST_FITNESS * score_best_fitness + WEIGHT_AVG_GENERATION * score_avg_generation
            + WEIGHT_AVG_GENERATION_FITNESS * score_avg_generation_fitness + WEIGHT_AVG_BEST_FITNESS
            * score_avg_best_fitness,
        10,
    )
}

/// The sum of `n` generations is at most `n` times the greatest `u32`.
pub proof fn lemma_generations_run_bounds(generations: Seq<u32>)
    ensures
        0 <= generations_run(generations) <= generations.len() * u32::MAX,
    decreases generations.len(),
{
    if generations.len() > 0 {
        lemma_generations_run_bounds(generations.drop_last());
    }
}

/// The mean generation lies between zero and the greatest `u32`.
pub proof fn lemma_average_generation_bounds(generations: Seq<u32>, max_generations: u32)
    ensures
        0 <= average_generation(generations, max_generations) <= u32::MAX * ONE,
{
    if generations.len() > 0 {
        lemma_generations_run_bounds(generations);
        let run = generations_run(generations);
        let n = generations.len() as int;
        assert(0 <= run * ONE <= n * (u32::MAX * ONE)) by (nonlinear_arith)
            requires
                0 <= run <= n * u32::MAX,
        ;
        assert(0 <= (run * ONE) / n <= u32::MAX * ONE) by (nonlinear_arith)
            requires
                0 <= run * ONE <= n * (u32::MAX * ONE),
                n > 0,
        ;
    }
}

/// With every fitness between zero and one, a mean generation that a `u32` holds and
/// positive limits, the score is a value that an `i64` holds.
pub proof fn lemma_score_in_range(
    best_fitness: int,
    avg_generation: int,
    avg_generation_fitness: int,
    avg_best_fitness: int,
    max_generations: int,
    max_fitness: int,
)
    requires
        0 <= best_fitness <= ONE,
        0 <= avg_generation <= u32::MAX * ONE,
        0 <= avg_generation_fitness <= ONE,
        0 <= avg_best_fitness <= ONE,
        max_generations > 0,
        max_fitness > 0,
    ensures
        i64::MIN <= ponderate_score(
            best_fitness,
            avg_generation,
            avg_generation_fitness,
            avg_best_fitness,
            max_generations,
            max_fitness,
        ) <= i64::MAX,
{
    assert(0 <= best_fitness * ONE <= ONE * ONE) by (nonlinear_arith)
        requires
            0 <= best_fitness <= ONE,
    ;
    assert(0 <= avg_best_fitness * ONE <= ONE * ONE) by (nonlinear_arith)
        requires
            0 <= avg_best_fitness <= ONE,
    ;
    lemma_quotient_shrinks(best_fitness * ONE, max_fitness);
    lemma_quotient_shrinks(avg_best_fitness * ONE, max_fitness);
    lemma_quotient_shrinks(avg_generation - ONE, max_generations);
    let score_best_fitness = quotient(best_fitness * ONE, max_fitness);
    let score_avg_generation = ONE - quotient(avg_generation - ONE, max_generations);
    let score_avg_best_fitness = quotient(avg_best_fitness * ONE, max_fitness);
    let weighted = WEIGHT_BEST_FITNESS * score_best_fitness + WEIGHT_AVG_GENERATION
        * score_avg_generation + WEIGHT_AVG_GENERATION_FITNESS * avg_generation_fitness
        + WEIGHT_AVG_BEST_FITNESS * score_avg_best_fitness;
    lemma_quotient_shrinks(weighted, 10);
}

/// Adds up a slice of generations. The sum of any slice fits in a `u128`.
fn sum_of_generations(generations: &[u32]) -> (sum: u128)
    ensures
        sum == generations_run(generations@),
{
    let mut sum: u128 = 0;
    let mut i: usize = 0;
    while i < generations.len()
        invariant
            i <= generations.len(),
            sum == generations_run(generations@.take(i as int)),
            sum <= i * u32::MAX,
        decreases generations.len() - i,
    {
        proof {
            assert(generations@.take(i + 1).drop_last() =~= generations@.take(i as int));
        }
        sum = sum + generations[i] as u128;
        i = i + 1;
    }
    proof {
        assert(generations@.take(i as int) =~= generations@);
    }
    sum
}

impl Results {
    /// Whether the recorded outcomes can be summed up: both limits are positive, every trial
    /// has its three values, and every fitness lies between zero and one.
    pub open spec fn valid_outcomes(&self) -> bool {
        &&& self.max_generations > 0
        &&& self.max_fitness > 0
        &&& self.generation_fitnesses@.len() == self.generations@.len()
        &&& self.best_fitnesses@.len() == self.generations@.len()
        &&& forall|i: int|
            0 <= i < self.generation_fitnesses@.len() ==> 0 <= #[trigger] self.generation_fitnesses@[i]
                <= ONE
        &&& forall|i: int|
            0 <= i < self.best_fitnesses@.len() ==> 0 <= #[trigger] self.best_fitnesses@[i] <= ONE
    }

    /// The score that belongs to the sums as they stand: zero without any trial, else the
    /// weighted score.
    pub open spec fn score_of_sums(&self) -> int {
        if self.generations@.len() == 0 {
            0
        } else {
            ponderate_score(
                self.best_fitness as int,
                self.avg_generation as int,
                self.avg_generation_fitness as int,
                self.avg_best_fitness as int,
                self.max_generations as int,
                self.max_fitness as int,
            )
        }
    }

    /// Whether every sum is the one that belongs to the recorded outcomes.
    pub open spec fn sums_current(&self) -> bool {
        &&& self.total_generations == self.generations@.len()
        &&& self.avg_generation == average_generation(self.generations@, self.max_generations)
        &&& self.avg_generation_fitness == mean(self.generation_fitnesses@)
        &&& self.avg_best_fitness == mean(self.best_fitnesses@)
        &&& self.best_fitness == greatest_or_zero(self.best_fitnesses@)
        &&& self.score == self.score_of_sums()
    }

    /// Whether nothing was recorded or summed up yet: no outcome, and every sum zero.
    pub open spec fn untouched(&self) -> bool {
        &&& self.generations@.len() == 0
        &&& self.total_generations == 0
        &&& self.avg_generation == 0
        &&& self.avg_generation_fitness == 0
        &&& self.avg_best_fitness == 0
        &&& self.best_fitness == 0
        &&& self.score == 0
    }

    /// The invariant of the type: the outcomes are valid, and the sums are those of the
    /// outcomes, or all zero where nothing was recorded yet.
    pub open spec fn wf(&self) -> bool {
        &&& self.valid_outcomes()
        &&& self.sums_current() || self.untouched()
    }

    /// No trials yet, for trials of at most `max_generations` generations and a perfect
    /// fitness of `max_fitness`. Every sum starts at zero.
    pub fn new(max_generations: u32, max_fitness: i64) -> (results: Results)
        requires
            max_generations > 0,
            max_fitness > 0,
        ensures
            results.max_generations == max_generations,
            results.max_fitness == max_fitness,
            results.generations@ == Seq::<u32>::empty(),
            results.generation_fitnesses@ == Seq::<i64>::empty(),
            results.best_fitnesses@ == Seq::<i64>::empty(),
            results.untouched(),
            results.wf(),
    {
        Results {
            max_generations,
            max_fitness,
            generations: Vec::new(),
            generation_fitnesses: Vec::new(),
            best_fitnesses: Vec::new(),
            score: 0,
            total_generations: 0,
            avg_generation: 0,
            avg_generation_fitness: 0,
            avg_best_fitness: 0,
            best_fitness: 0,
        }
    }

    /// Records the outcome of one trial and sums the trials up anew.
    pub fn add_result(&mut self, generation: u32, generation_fitness: i64, best_fitness: i64)
        requires
            old(self).valid_outcomes(),
            0 <= generation_fitness <= ONE,
            0 <= best_fitness <= ONE,
        ensures
            final(self).max_generations == old(self).max_generations,
            final(self).max_fitness == old(self).max_fitness,
            final(self).generations@ == old(self).generations@.push(generation),
            final(self).generation_fitnesses@ == old(self).generation_fitnesses@.push(generation_fitness),
            final(self).best_fitnesses@ == old(self).best_fitnesses@.push(best_fitness),
            final(self).sums_current(),
            final(self).wf(),
    {
        self.generations.push(generation);
        self.generation_fitnesses.push(generation_fitness);
        self.best_fitnesses.push(best_fitness);
        self.set_overall_values();
    }

    /// Computes every sum, and the score, from the recorded outcomes.
    pub fn set_overall_values(&mut self)
        requires
            old(self).valid_outcomes(),
        ensures
            final(self).max_generations == old(self).max_generations,
            final(self).max_fitness == old(self).max_fitness,
            final(self).generations@ == old(self).generations@,
            final(self).generation_fitnesses@ == old(self).generation_fitnesses@,
            final(self).best_fitnesses@ == old(self).best_fitnesses@,
            final(self).sums_current(),
            final(self).wf(),
    {
        self.total_generations = self.generations.len();
        proof {
            lemma_generations_run_bounds(self.generations@);
            lemma_average_generation_bounds(self.generations@, self.max_generations);
            lemma_mean_between(self.generation_fitnesses@, 0, ONE as int);
            lemma_mean_between(self.best_fitnesses@, 0, ONE as int);
        }
        self.avg_generation = if self.total_generations > 0 {
            let run: u128 = sum_of_generations(self.generations.as_slice());
            assert(run * ONE <= self.total_generations * u32::MAX * ONE) by (nonlinear_arith)
                requires
                    run <= self.total_generations * u32::MAX,
            ;
            ((run * (ONE as u128)) / (self.total_generations as u128)) as i64
        } else {
            self.max_generations as i64 * ONE
        };
        self.avg_generation_fitness = mean_of(self.generation_fitnesses.as_slice());
        self.avg_best_fitness = mean_of(self.best_fitnesses.as_slice());
        self.best_fitness = if self.total_generations > 0 {
            proof {
                lemma_maximum_is_greatest(self.best_fitnesses@);
            }
            get_best_fitness(self.best_fitnesses.as_slice())
        } else {
            0
        };
        proof {
            lemma_score_in_range(
                self.best_fitness as int,
                self.avg_generation as int,
                self.avg_generation_fitness as int,
                self.avg_best_fitness as int,
                self.max_generations as int,
                self.max_fitness as int,
            );
        }
        self.calculate_ponderate_score();
    }

    /// Computes the score from the sums as they stand. The score has to be a value that an
    /// `i64` holds, as the score of valid outcomes always is.
    pub fn calculate_ponderate_score(&mut self)
        requires
            old(self).max_generations > 0,
            old(self).max_fitness > 0,
            i64::MIN <= old(self).score_of_sums() <= i64::MAX,
        ensures
            final(self).score == old(self).score_of_sums(),
            *final(self) == (Results { score: final(self).score, ..*old(self) }),
    {
        if self.generations.len() == 0 {
            self.score = 0;
            return ;
        }
        let one: i128 = ONE as i128;
        let max_fitness: i128 = self.max_fitness as i128;
        proof {
            lemma_quotient_shrinks(self.best_fitness * ONE, self.max_fitness as int);
            lemma_quotient_shrinks(self.avg_best_fitness * ONE, self.max_fitness as int);
            lemma_quotient_shrinks(self.avg_generation - ONE, self.max_generations as int);
        }
        let score_best_fitness: i128 = divide(self.best_fitness as i128 * one, max_fitness);
        let score_avg_generation: i128 = one - divide(
            self.avg_generation as i128 - one,
            self.max_generations as i128,
        );
        let score_avg_generation_fitness: i128 = self.avg_generation_fitness as i128;
        let score_avg_best_fitness: i128 = divide(self.avg_best_fitness as i128 * one, max_fitness);
        let weighted: i128 = WEIGHT_BEST_FITNESS as i128 * score_best_fitness + WEIGHT_AVG_GENERATION as i128
            * score_avg_generation + WEIGHT_AVG_GENERATION_FITNESS as i128 * score_avg_generation_fitness
            + WEIGHT_AVG_BEST_FITNESS as i128 * score_avg_best_fitness;
        self.score = divide(weighted, 10) as i64;
    }

    /// The weighted score of the trials so far.
    pub fn get_score(&self) -> (score: i64)
        ensures
            score == self.score,
    {
        self.score
    }
}

} // verus!
