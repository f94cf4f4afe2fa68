//! The random draws of the library. Each draw is made by the `rand` crate on the generator
//! of the calling thread; what is stated of a draw here is believed, not proved.

use rand::Rng;
use vstd::prelude::*;
use crate::fixed_point::ONE;

verus! {

/// Calls `rand::Rng::gen_ratio` on `rand::thread_rng()`: a draw that is `true` with
/// probability `numerator / denominator`. As `rand` documents, the draw is certainly `false`
/// when `numerator` is zero and certainly `true` when `numerator` equals `denominator`;
/// nothing else is claimed of it. `rand` panics on the arguments that `requires` leaves out.
#[verifier::external_body]
pub(crate) fn bernoulli(numerator: u32, denominator: u32) -> (hit: bool)
    requires
        denominator > 0,
        numerator <= denominator,
    ensures
        numerator == 0 ==> !hit,
        numerator == denominator ==> hit,
{
    rand::thread_rng().gen_ratio(numerator, denominator)
}

/// Calls `rand::Rng::gen_range` on `rand::thread_rng()` with the inclusive range
/// `low..=high`: a uniform draw that lies in the range. `rand` panics on an empty range,
/// which `requires` leaves out.
#[verifier::external_body]
pub(crate) fn uniform(low: u128, high: u128) -> (drawn: u128)
    requires
        low <= high,
    ensures
        low <= drawn <= high,
{
    rand::thread_rng().gen_range(low..=high)
}

/// Calls `rand::seq::index::sample` on `rand::thread_rng()` and takes the indices out with
/// `IndexVec::into_vec`: exactly `amount` distinct indices below `length`, in random order.
/// `rand` panics when `amount` exceeds `length`, which `requires` leaves out.
#[verifier::external_body]
pub(crate) fn sample_indices(length: usize, amount: usize) -> (indices: Vec<usize>)
    requires
        amount <= length,
    ensures
        indices.len() == amount,
        forall|i: int| 0 <= i < indices.len() ==> #[trigger] indices[i] < length,
        forall|i: int, j: int| 0 <= i < j < indices.len() ==> indices[i] != indices[j],
{
    rand::seq::index::sample(&mut rand::thread_rng(), length, amount).into_vec()
}

/// Decides by a random draw whether an event of probability `rate` happens. A rate of zero
/// or less never happens, a rate of one or more always does.
pub fn chance(rate: i64) -> (hit: bool)
    ensures
        rate <= 0 ==> !hit,
        rate >= ONE ==> hit,
{
    if rate <= 0 {
        false
    } else if rate >= ONE {
        true
    } else {
        bernoulli(rate as u32, ONE as u32)
    }
}

/// The gene that a draw stands for: one for a hit, zero for a miss.
pub fn gene_of(hit: bool) -> (gene: u8)
    ensures
        gene == if hit {
            1u8
        } else {
            0u8
        },
{
    if hit {
        1
    } else {
        0
    }
}

/// Draws a gene: zero or one, each with probability one half.
pub fn random_gene() -> (gene: u8)
    ensures
        gene <= 1,
{
    gene_of(bernoulli(1, 2))
}

/// Draws a whole number between `low` and `high`, both included, each with the same
/// probability.
pub fn random_between(low: usize, high: usize) -> (drawn: usize)
    requires
        low <= high,
    ensures
        low <= drawn <= high,
{
    uniform(low as u128, high as u128) as usize
}

} // verus!
