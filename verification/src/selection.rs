//! Selection of a parent from a population: by tournament, or by roulette wheel.

use vstd::prelude::*;
use vstd::string::*;
use vstd::set_lib::{set_int_range, lemma_int_range, lemma_subset_equality};
use crate::fixed_point::{total, sum_of, lemma_total_bounds};
use crate::random::{random_between, sample_indices, uniform};

verus! {

/// How a parent is selected.
#[derive(Clone, Copy, Debug, PartialEq, Eq, Structural)]
pub enum SelectionMode {
    /// The fittest of a random sample wins.
    Tournament,
    /// Each genome is drawn with a probability in proportion to its fitness.
    Roulette,
}

/// The mode that a name stands for: roulette for `roulette`, written exactly so, and
/// tournament for every other name.
pub open spec fn mode_of_name(name: Seq<char>) -> SelectionMode {
    if name == "roulette"@ {
        SelectionMode::Roulette
    } else {
        SelectionMode::Tournament
    }
}

/// The least size of a tournament in a population of `population_size`: six tenths of it,
/// rounded down.
pub open spec fn least_tournament(population_size: nat) -> nat {
    population_size * 6 / 10
}

/// The greatest size of a tournament in a population of `population_size`: eight tenths of
/// it, rounded down.
pub open spec fn greatest_tournament(population_size: nat) -> nat {
    population_size * 8 / 10
}

/// The size of the tournament for a drawn size: the drawn size, and one where it is less.
pub open spec fn at_least_one(drawn: nat) -> nat {
    if drawn > 1 {
        drawn
    } else {
        1
    }
}

/// Whether `sample` holds distinct indices into a population of `population_size`.
pub open spec fn is_sample(sample: Seq<usize>, population_size: nat) -> bool {
    &&& forall|i: int| 0 <= i < sample.len() ==> #[trigger] sample[i] < population_size
    &&& forall|i: int, j: int| 0 <= i < j < sample.len() ==> sample[i] != sample[j]
}

/// Whether `position` is where the winner of the tournament stands in the sample: no
/// sampled genome is fitter than the one there, and of those that are as fit it comes last.
pub open spec fn is_last_best(position: int, fitness_values: Seq<i64>, sample: Seq<usize>) -> bool {
    &&& 0 <= position < sample.len()
    &&& forall|k: int|
        0 <= k < sample.len() ==> fitness_values[#[trigger] sample[k] as int] <= fitness_values[sample[position] as int]
    &&& forall|k: int|
        position < k < sample.len() ==> fitness_values[#[trigger] sample[k] as int] < fitness_values[sample[position] as int]
}

/// Whether `parent` can come out of a tournament of `tournament_size`: it is the genome
/// that wins among some sample of that many distinct genomes.
pub open spec fn is_tournament_outcome(
    parent: Seq<u8>,
    population: Seq<Vec<u8>>,
    fitness_values: Seq<i64>,
    tournament_size: nat,
) -> bool {
    exists|sample: Seq<usize>, position: int|
        sample.len() == tournament_size && is_sample(sample, population.len()) && #[trigger] is_last_best(
            position,
            fitness_values,
            sample,
        ) && parent == population[sample[position] as int]@
}

/// The sum of the first `count` fitness values: where the wheel stands after that many
/// genomes.
pub open spec fn wheel(fitness_values: Seq<i64>, count: int) -> int {
    total(fitness_values.take(count))
}

/// Whether the wheel stops at `chosen` for the draw `pick`: `chosen` is the first genome
/// at which the wheel has gone beyond the draw, or the first genome of all where the wheel
/// never goes beyond it.
pub open spec fn is_roulette_choice(chosen: int, fitness_values: Seq<i64>, pick: int) -> bool {
    ||| {
        &&& 0 <= chosen < fitness_values.len()
        &&& wheel(fitness_values, chosen + 1) > pick
        &&& forall|k: int| 0 <= k < chosen ==> #[trigger] wheel(fitness_values, k + 1) <= pick
    }
    ||| {
        &&& chosen == 0
        &&& forall|k: int| 0 <= k < fitness_values.len() ==> #[trigger] wheel(fitness_values, k + 1) <= pick
    }
}

/// Whether `parent` can come out of the roulette wheel: the first genome where the fitness
/// values add up to zero, else the genome at which the wheel stops for some draw below
/// their sum.
pub open spec fn is_roulette_outcome(
    parent: Seq<u8>,
    population: Seq<Vec<u8>>,
    fitness_values: Seq<i64>,
) -> bool {
    if total(fitness_values) == 0 {
        parent == population[0]@
    } else {
        exists|chosen: int, pick: int|
            0 <= pick < total(fitness_values) && #[trigger] is_roulette_choice(chosen, fitness_values, pick)
                && 0 <= chosen < population.len() && parent == population[chosen]@
    }
}

/// Whether `parent` is one of the genomes of the population.
pub open spec fn is_member(parent: Seq<u8>, population: Seq<Vec<u8>>) -> bool {
    exists|i: int| 0 <= i < population.len() && parent == (#[trigger] population[i])@
}

/// Whether `parent` can come out of a selection in the given mode: for roulette, off the
/// wheel; for tournament, out of a tournament whose size lies between six and eight tenths
/// of the population, and is at least one.
pub open spec fn is_selection_outcome(
    parent: Seq<u8>,
    population: Seq<Vec<u8>>,
    fitness_values: Seq<i64>,
    mode: SelectionMode,
) -> bool {
    match mode {
        SelectionMode::Roulette => is_roulette_outcome(parent, population, fitness_values),
        SelectionMode::Tournament => exists|tournament_size: nat|
            least_tournament(population.len()) <= tournament_size <= greatest_tournament(
                population.len(),
            ) && #[trigger] is_tournament_outcome(
                parent,
                population,
                fitness_values,
                at_least_one(tournament_size),
            ),
    }
}

/// A tournament's outcome is a genome of the population.
pub proof fn lemma_tournament_outcome_is_member(
    parent: Seq<u8>,
    population: Seq<Vec<u8>>,
    fitness_values: Seq<i64>,
    tournament_size: nat,
)
    requires
        is_tournament_outcome(parent, population, fitness_values, tournament_size),
    ensures
        is_member(parent, population),
{
    let (sample, position) = choose|sample: Seq<usize>, position: int|
        sample.len() == tournament_size && is_sample(sample, population.len()) && #[trigger] is_last_best(
            position,
            fitness_values,
            sample,
        ) && parent == population[sample[position] as int]@;
    assert(parent == population[sample[position] as int]@);
}

/// Whether the genome at `index` of the population is in the sample.
pub open spec fn is_sampled(sample: Seq<usize>, index: int) -> bool {
    exists|k: int| 0 <= k < sample.len() && #[trigger] sample[k] == index
}

/// A sample of as many distinct genomes as the population has holds every genome.
pub proof fn lemma_full_sample_holds_all(sample: Seq<usize>, population_size: nat)
    requires
        is_sample(sample, population_size),
        sample.len() == population_size,
    ensures
        forall|i: int| 0 <= i < population_size ==> #[trigger] is_sampled(sample, i),
{
    let places = Seq::new(sample.len(), |k: int| sample[k] as int);
    assert(places.no_duplicates());
    places.unique_seq_to_set();
    lemma_int_range(0, population_size as int);
    let all = set_int_range(0, population_size as int);
    assert forall|v: int| places.to_set().contains(v) implies all.contains(v) by {
        let k = choose|k: int| 0 <= k < places.len() && places[k] == v;
        assert(sample[k] < population_size);
    }
    lemma_subset_equality(places.to_set(), all);
    assert forall|i: int| 0 <= i < population_size implies #[trigger] is_sampled(sample, i) by {
        assert(all.contains(i));
        assert(places.to_set().contains(i));
        let k = choose|k: int| 0 <= k < places.len() && places[k] == i;
        assert(sample[k] == i);
    }
}

/// A tournament of the whole population is won by a fittest genome: no genome of the
/// population is fitter than the selected parent.
pub proof fn lemma_full_tournament_selects_fittest(
    parent: Seq<u8>,
    population: Seq<Vec<u8>>,
    fitness_values: Seq<i64>,
)
    requires
        fitness_values.len() == population.len(),
        is_tournament_outcome(parent, population, fitness_values, population.len()),
    ensures
        exists|winner: int|
            {
                &&& 0 <= winner < population.len()
                &&& parent == (#[trigger] population[winner])@
                &&& forall|i: int| 0 <= i < population.len() ==> fitness_values[i] <= fitness_values[winner]
            },
{
    let (sample, position) = choose|sample: Seq<usize>, position: int|
        sample.len() == population.len() && is_sample(sample, population.len()) && #[trigger] is_last_best(
            position,
            fitness_values,
            sample,
        ) && parent == population[sample[position] as int]@;
    lemma_full_sample_holds_all(sample, population.len());
    let winner = sample[position] as int;
    assert forall|i: int| 0 <= i < population.len() implies fitness_values[i]
        <= fitness_values[winner] by {
        assert(is_sampled(sample, i));
        let k = choose|k: int| 0 <= k < sample.len() && #[trigger] sample[k] == i;
        assert(fitness_values[sample[k] as int] <= fitness_values[sample[position] as int]);
    }
    assert(parent == population[winner]@);
}

/// The wheel's outcome is a genome of the population.
pub proof fn lemma_roulette_outcome_is_member(
    parent: Seq<u8>,
    population: Seq<Vec<u8>>,
    fitness_values: Seq<i64>,
)
    requires
        population.len() > 0,
        is_roulette_outcome(parent, population, fitness_values),
    ensures
        is_member(parent, population),
{
    if total(fitness_values) == 0 {
        assert(parent == population[0]@);
    } else {
        let (chosen, pick) = choose|chosen: int, pick: int|
            0 <= pick < total(fitness_values) && #[trigger] is_roulette_choice(chosen, fitness_values, pick)
                && 0 <= chosen < population.len() && parent == population[chosen]@;
        assert(parent == population[chosen]@);
    }
}

/// Whatever the mode, the selected parent is a genome of the population.
pub proof fn lemma_selection_outcome_is_member(
    parent: Seq<u8>,
    population: Seq<Vec<u8>>,
    fitness_values: Seq<i64>,
    mode: SelectionMode,
)
    requires
        population.len() > 0,
        is_selection_outcome(parent, population, fitness_values, mode),
    ensures
        is_member(parent, population),
{
    match mode {
        SelectionMode::Roulette => {
            lemma_roulette_outcome_is_member(parent, population, fitness_values);
        },
        SelectionMode::Tournament => {
            let tournament_size = choose|tournament_size: nat|
                least_tournament(population.len()) <= tournament_size <= greatest_tournament(
                    population.len(),
                ) && #[trigger] is_tournament_outcome(
                    parent,
                    population,
                    fitness_values,
                    at_least_one(tournament_size),
                );
            lemma_tournament_outcome_is_member(
                parent,
                population,
                fitness_values,
                at_least_one(tournament_size),
            );
        },
    }
}

/// For a draw below the sum of the fitness values, the wheel stops at a genome where it
/// goes beyond the draw; where no fitness value is negative, that genome's fitness is
/// above zero.
pub proof fn lemma_roulette_choice_has_fitness(chosen: int, fitness_values: Seq<i64>, pick: int)
    requires
        0 <= pick < total(fitness_values),
        is_roulette_choice(chosen, fitness_values, pick),
    ensures
        0 <= chosen < fitness_values.len(),
        wheel(fitness_values, chosen + 1) > pick,
        (forall|i: int| 0 <= i < fitness_values.len() ==> fitness_values[i] >= 0)
            ==> fitness_values[chosen] > 0,
{
    let n = fitness_values.len() as int;
    assert(fitness_values.take(n) =~= fitness_values);
    if n == 0 {
        assert(total(fitness_values) == 0);
    }
    assert(wheel(fitness_values, (n - 1) + 1) > pick);
    assert(fitness_values.take(chosen + 1).drop_last() =~= fitness_values.take(chosen));
    assert(wheel(fitness_values, chosen + 1) == wheel(fitness_values, chosen) + fitness_values[chosen]);
    if chosen > 0 {
        assert(wheel(fitness_values, (chosen - 1) + 1) <= pick);
    } else {
        assert(wheel(fitness_values, 0) == 0);
    }
}

impl SelectionMode {
    /// A name that stands for the mode: `roulette` or `tournament`.
    pub fn name(self) -> (name: &'static str)
        ensures
            mode_of_name(name@) == self,
    {
        proof {
            reveal_strlit("tournament");
            reveal_strlit("roulette");
            assert("tournament"@.len() == 10);
            assert("roulette"@.len() == 8);
        }
        match self {
            SelectionMode::Roulette => "roulette",
            SelectionMode::Tournament => "tournament",
        }
    }
}

/// Reads a mode's name: `roulette`, written exactly so, is roulette, and every other name
/// is tournament.
pub fn selection_mode(mode: &str) -> (selected: SelectionMode)
    ensures
        selected == mode_of_name(mode@),
{
    let name = "roulette";
    proof {
        reveal_strlit("roulette");
    }
    let length: usize = mode.unicode_len();
    if length != name.unicode_len() {
        return SelectionMode::Tournament;
    }
    let mut i: usize = 0;
    while i < length
        invariant
            i <= length,
            length == mode@.len(),
            length == name@.len(),
            name@ == "roulette"@,
            forall|j: int| 0 <= j < i ==> mode@[j] == name@[j],
        decreases length - i,
    {
        if mode.get_char(i) != name.get_char(i) {
            assert(mode@[i as int] != name@[i as int]);
            return SelectionMode::Tournament;
        }
        i = i + 1;
    }
    assert(mode@ =~= name@);
    SelectionMode::Roulette
}

/// The index of the genome that wins a tournament among the sampled genomes: the fittest
/// of them, and of several that are as fit the one that comes last in the sample.
pub fn tournament_winner(fitness_values: &[i64], sample: &[usize]) -> (winner: usize)
    requires
        sample.len() > 0,
        forall|i: int| 0 <= i < sample.len() ==> #[trigger] sample[i] < fitness_values.len(),
    ensures
        exists|position: int| #[trigger]
            is_last_best(position, fitness_values@, sample@) && winner == sample[position],
{
    let mut position: usize = 0;
    let mut i: usize = 1;
    while i < sample.len()
        invariant
            1 <= i <= sample.len(),
            position < i,
            forall|k: int| 0 <= k < sample.len() ==> #[trigger] sample[k] < fitness_values.len(),
            is_last_best(position as int, fitness_values@, sample@.take(i as int)),
        decreases sample.len() - i,
    {
        if fitness_values[sample[i]] >= fitness_values[sample[position]] {
            position = i;
        }
        i = i + 1;
    }
    assert(sample@.take(i as int) =~= sample@);
    sample[position]
}

/// Selects a parent by tournament: draws `tournament_size` distinct genomes and returns a
/// copy of the fittest of them; of several that are as fit, the one drawn last.
pub fn select_parent_tournament(
    population: &[Vec<u8>],
    fitness_values: &[i64],
    tournament_size: usize,
) -> (parent: Vec<u8>)
    requires
        1 <= tournament_size <= population.len(),
        fitness_values.len() == population.len(),
    ensures
        is_tournament_outcome(parent@, population@, fitness_values@, tournament_size as nat),
        is_member(parent@, population@),
{
    let selected_indices: Vec<usize> = sample_indices(population.len(), tournament_size);
    let winner: usize = tournament_winner(fitness_values, selected_indices.as_slice());
    let parent: Vec<u8> = population[winner].clone();
    proof {
        let position = choose|position: int| #[trigger]
            is_last_best(position, fitness_values@, selected_indices@) && winner
                == selected_indices[position];
        assert(is_sample(selected_indices@, population@.len()));
        assert(is_last_best(position, fitness_values@, selected_indices@));
        assert(parent@ == population@[selected_indices@[position] as int]@);
        lemma_tournament_outcome_is_member(
            parent@,
            population@,
            fitness_values@,
            tournament_size as nat,
        );
    }
    parent
}

/// The index at which the wheel stops for the draw `pick`: the first genome at which the
/// fitness values, added up from the start, go beyond the draw; the first genome of all
/// where they never do.
pub fn roulette_index(fitness_values: &[i64], pick: i128) -> (chosen: usize)
    ensures
        is_roulette_choice(chosen as int, fitness_values@, pick as int),
{
    let mut current: i128 = 0;
    let mut i: usize = 0;
    while i < fitness_values.len()
        invariant
            i <= fitness_values.len(),
            current == wheel(fitness_values@, i as int),
            i * i64::MIN <= current <= i * i64::MAX,
            forall|k: int| 0 <= k < i ==> #[trigger] wheel(fitness_values@, k + 1) <= pick,
        decreases fitness_values.len() - i,
    {
        proof {
            assert(fitness_values@.take(i + 1).drop_last() =~= fitness_values@.take(i as int));
        }
        current = current + fitness_values[i] as i128;
        if current > pick {
            return i;
        }
        i = i + 1;
    }
    0
}

/// Selects a parent by roulette wheel: each genome is drawn with a probability in
/// proportion to its fitness. Where the fitness values add up to zero, the first genome is
/// selected.
pub fn select_parent_roulette(population: &[Vec<u8>], fitness_values: &[i64]) -> (parent: Vec<u8>)
    requires
        population.len() > 0,
        fitness_values.len() == population.len(),
        total(fitness_values@) >= 0,
    ensures
        is_roulette_outcome(parent@, population@, fitness_values@),
        is_member(parent@, population@),
{
    let total_fitness: i128 = sum_of(fitness_values);
    if total_fitness == 0 {
        return population[0].clone();
    }
    let pick: i128 = uniform(0, (total_fitness - 1) as u128) as i128;
    let chosen: usize = roulette_index(fitness_values, pick);
    let parent: Vec<u8> = population[chosen].clone();
    proof {
        lemma_roulette_choice_has_fitness(chosen as int, fitness_values@, pick as int);
        assert(is_roulette_choice(chosen as int, fitness_values@, pick as int));
        assert(parent@ == population@[chosen as int]@);
    }
    parent
}

/// Draws the size of a tournament in a population of `population_size`: uniformly between
/// six and eight tenths of it, rounded down, and at least one.
pub fn draw_tournament_size(population_size: usize) -> (tournament_size: usize)
    ensures
        exists|drawn: nat|
            least_tournament(population_size as nat) <= drawn <= greatest_tournament(
                population_size as nat,
            ) && tournament_size == at_least_one(drawn),
        population_size >= 1 ==> 1 <= tournament_size <= population_size,
{
    let least: usize = (population_size as u128 * 6 / 10) as usize;
    let greatest: usize = (population_size as u128 * 8 / 10) as usize;
    let drawn: usize = random_between(least, greatest);
    let tournament_size: usize = if drawn > 1 { drawn } else { 1 };
    assert(least_tournament(population_size as nat) <= drawn as nat <= greatest_tournament(
        population_size as nat,
    ) && tournament_size == at_least_one(drawn as nat));
    tournament_size
}

/// Selects a parent from the population in the mode that `mode` names: by roulette wheel
/// for `roulette`, by a tournament of random size for every other name.
pub fn select_parent(population: &Vec<Vec<u8>>, fitness_values: &[i64], mode: &str) -> (parent: Vec<u8>)
    requires
        population.len() > 0,
        fitness_values.len() == population.len(),
        mode_of_name(mode@) == SelectionMode::Roulette ==> total(fitness_values@) >= 0,
    ensures
        is_selection_outcome(parent@, population@, fitness_values@, mode_of_name(mode@)),
        is_member(parent@, population@),
{
    match selection_mode(mode) {
        SelectionMode::Roulette => select_parent_roulette(population.as_slice(), fitness_values),
        SelectionMode::Tournament => {
            let tournament_size: usize = draw_tournament_size(population.len());
            let parent = select_parent_tournament(population.as_slice(), fitness_values, tournament_size);
            proof {
                let drawn = choose|drawn: nat|
                    least_tournament(population.len() as nat) <= drawn <= greatest_tournament(
                        population.len() as nat,
                    ) && tournament_size == at_least_one(drawn);
                assert(is_tournament_outcome(
                    parent@,
                    population@,
                    fitness_values@,
                    at_least_one(drawn),
                ));
            }
            parent
        },
    }
}

} // verus!
