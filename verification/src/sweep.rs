//! The sweep over the grid of rates: which pair of rates is tried next, which pair is the
//! best so far, and when the rest of a row is skipped.
//!
//! The grid has a row for each mutation rate and a column for each crossover rate, and is
//! walked row by row. The trials of a cell are run by the caller, who hands their results
//! back.

use vstd::prelude::*;
use crate::fixed_point::ONE;
use crate::results::Results;

verus! {

/// Calls `num_cpus::get`: the number of logical processors that the process may use, which
/// `num_cpus` documents to be at least one. Nothing else is claimed of it.
#[verifier::external_body]
fn available_cpus() -> (cpus: usize)
    ensures
        cpus >= 1,
{
    num_cpus::get()
}

/// The number of workers for a machine with `cpus` processors: two less than there are
/// processors, and at least one.
pub open spec fn pool_size(cpus: usize) -> usize {
    if cpus > 2 {
        (cpus - 2) as usize
    } else {
        1
    }
}

/// The number of workers for a machine with `cpus` processors: two processors are left to
/// others, but one worker there always is.
pub fn worker_pool_size(cpus: usize) -> (workers: usize)
    ensures
        workers == pool_size(cpus),
        workers >= 1,
{
    if cpus > 2 {
        cpus - 2
    } else {
        1
    }
}

/// The number of workers for this machine: at least one, and two less than it has
/// processors where it has more than three.
pub fn max_threads() -> (workers: usize)
    ensures
        workers >= 1,
{
    worker_pool_size(available_cpus())
}

/// A sweep in progress.
pub struct Sweep {
    /// The mutation rates: one for each row of the grid.
    pub mutation_rates: Vec<i64>,
    /// The crossover rates: one for each column of the grid.
    pub crossover_rates: Vec<i64>,
    /// The score at which a row is left as soon as the best score has reached it.
    pub target_score: i64,
    /// The row of the cell that is tried next.
    pub row: usize,
    /// The column of the cell that is tried next.
    pub column: usize,
    /// The score of the cell before it in its row, and zero at the start of a row.
    pub previous_score: i64,
    /// The mutation rate of the best cell so far, and zero before there is one.
    pub best_mutation_rate: i64,
    /// The crossover rate of the best cell so far, and zero before there is one.
    pub best_crossover_rate: i64,
    /// The score of the best cell so far, and zero before there is one.
    pub best_score: i64,
    /// The results of the best cell so far, and empty results before there is one.
    pub best_result: Results,
}

impl Sweep {
    /// Whether every cell that the sweep tries has been tried.
    pub open spec fn is_done(&self) -> bool {
        self.row >= self.mutation_rates@.len() || self.crossover_rates@.len() == 0
    }

    /// The invariant of a sweep: the cell that is tried next lies in the grid, unless the
    /// sweep is done, and the best results are well formed.
    pub open spec fn wf(&self) -> bool {
        &&& self.row <= self.mutation_rates@.len()
        &&& self.column < self.crossover_rates@.len() || (self.column == 0 && self.is_done())
        &&& self.best_result.wf()
    }

    /// The number of cells from the one that is tried next to the end of the grid: no
    /// more cells than these are still tried.
    pub open spec fn cells_left(&self) -> int {
        if self.is_done() {
            0
        } else {
            (self.mutation_rates@.len() - self.row) * self.crossover_rates@.len() - self.column
        }
    }

    /// Whether a cell with `score` beats the best so far. A tie goes to the newer cell.
    pub open spec fn is_improved_by(&self, score: i64) -> bool {
        score >= self.best_score
    }

    /// Whether the rest of the row is skipped after a cell with `score`: the cell is not
    /// the first of its row, and its score does not exceed that of the cell before it.
    pub open spec fn is_pruned_by(&self, score: i64) -> bool {
        self.column != 0 && score <= self.previous_score
    }

    /// Whether the row is left after a cell with `score`: the rest of the row is skipped,
    /// or the best score, this cell counted, has reached the target, or the cell is the last
    /// of its row.
    pub open spec fn is_row_left_after(&self, score: i64) -> bool {
        ||| self.is_pruned_by(score)
        ||| (if self.is_improved_by(score) {
            score
        } else {
            self.best_score
        }) >= self.target_score
        ||| self.column + 1 == self.crossover_rates@.len()
    }

    /// Starts a sweep over the grid of the given rates, for trials of at most
    /// `max_generations` generations. The first cell is tried first. No cell is the best
    /// yet: the best score is zero, and so are the best rates.
    pub fn new(
        mutation_rates: Vec<i64>,
        crossover_rates: Vec<i64>,
        max_generations: u32,
        target_score: i64,
    ) -> (sweep: Sweep)
        requires
            max_generations > 0,
        ensures
            sweep.wf(),
            sweep.mutation_rates@ == mutation_rates@,
            sweep.crossover_rates@ == crossover_rates@,
            sweep.target_score == target_score,
            sweep.row == 0,
            sweep.column == 0,
            sweep.previous_score == 0,
            sweep.best_mutation_rate == 0,
            sweep.best_crossover_rate == 0,
            sweep.best_score == 0,
            sweep.best_result.max_generations == max_generations,
            sweep.best_result.max_fitness == ONE,
            sweep.best_result.untouched(),
    {
        Sweep {
            mutation_rates,
            crossover_rates,
            target_score,
            row: 0,
            column: 0,
            previous_score: 0,
            best_mutation_rate: 0,
            best_crossover_rate: 0,
            best_score: 0,
            best_result: Results::new(max_generations, ONE),
        }
    }

    /// The mutation rate and the crossover rate of the cell that is tried next, and
    /// nothing once the sweep is done.
    pub fn current(&self) -> (rates: Option<(i64, i64)>)
        requires
            self.wf(),
        ensures
            rates == if self.is_done() {
                None
            } else {
                Some((self.mutation_rates@[self.row as int], self.crossover_rates@[self.column as int]))
            },
    {
        if self.row >= self.mutation_rates.len() || self.crossover_rates.len() == 0 {
            None
        } else {
            Some((self.mutation_rates[self.row], self.crossover_rates[self.column]))
        }
    }

    /// Takes the results of the trials of the current cell, and returns by how many cells
    /// the sweep has progressed.
    ///
    /// The cell becomes the best so far where its score is not below the best score. The
    /// rest of the row is skipped where the cell is not the first of its row and its score
    /// does not exceed that of the cell before it: the progress then counts the cell and
    /// all that are skipped. Otherwise the progress is one cell, and the row is left all
    /// the same where the best score has reached the target. A row that is left is followed
    /// by the start of the next row, whatever the best score is.
    pub fn record(&mut self, result: Results) -> (progress: usize)
        requires
            old(self).wf(),
            !old(self).is_done(),
            result.wf(),
        ensures
            final(self).wf(),
            final(self).mutation_rates@ == old(self).mutation_rates@,
            final(self).crossover_rates@ == old(self).crossover_rates@,
            final(self).target_score == old(self).target_score,
            final(self).best_score == if old(self).is_improved_by(result.score) {
                result.score
            } else {
                old(self).best_score
            },
            final(self).best_mutation_rate == if old(self).is_improved_by(result.score) {
                old(self).mutation_rates@[old(self).row as int]
            } else {
                old(self).best_mutation_rate
            },
            final(self).best_crossover_rate == if old(self).is_improved_by(result.score) {
                old(self).crossover_rates@[old(self).column as int]
            } else {
                old(self).best_crossover_rate
            },
            final(self).best_result == if old(self).is_improved_by(result.score) {
                result
            } else {
                old(self).best_result
            },
            final(self).row == if old(self).is_row_left_after(result.score) {
                old(self).row + 1
            } else {
                old(self).row as int
            },
            final(self).column == if old(self).is_row_left_after(result.score) {
                0
            } else {
                old(self).column + 1
            },
            final(self).previous_score == if old(self).is_row_left_after(result.score) {
                0
            } else {
                result.score
            },
            progress == if old(self).is_pruned_by(result.score) {
                old(self).crossover_rates@.len() - old(self).column
            } else {
                1
            },
            1 <= progress <= old(self).cells_left() - final(self).cells_left(),
    {
        let score: i64 = result.get_score();
        let row: usize = self.row;
        let column: usize = self.column;
        let rows: usize = self.mutation_rates.len();
        let columns: usize = self.crossover_rates.len();
        assert(row < rows && column < columns);
        proof {
            let left = rows - row;
            assert(left * columns == (left - 1) * columns + columns) by (nonlinear_arith);
            assert((left - 1) * columns >= 0) by (nonlinear_arith)
                requires
                    left >= 1,
                    columns >= 0,
            ;
        }
        if score >= self.best_score {
            self.best_mutation_rate = self.mutation_rates[row];
            self.best_crossover_rate = self.crossover_rates[column];
            self.best_result = result;
            self.best_score = score;
        }
        let pruned: bool = column != 0 && score <= self.previous_score;
        let progress: usize = if pruned {
            columns - column
        } else {
            1
        };
        if pruned || self.best_score >= self.target_score || column + 1 == columns {
            self.row = row + 1;
            self.column = 0;
            self.previous_score = 0;
        } else {
            self.column = column + 1;
            self.previous_score = score;
        }
        progress
    }
}

} // verus!
