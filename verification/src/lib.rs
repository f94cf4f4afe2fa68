//! A genetic algorithm for the one-max problem, and a sweep that looks for the mutation and
//! crossover rates that make it converge reliably.
//!
//! Every real quantity of the library (a fitness, a rate, a score, an average) is a
//! fixed-point number: the `i64` that holds it counts thousand-millionths, so that the real
//! number one is [`fixed_point::ONE`].

pub mod breeding;
pub mod crossover;
pub mod fixed_point;
pub mod genome;
pub mod mutation;
pub mod random;
pub mod results;
pub mod selection;
pub mod sweep;
pub mod trial;
pub mod utils;
