//! A generic population-based stochastic optimization engine: a genetic
//! algorithm framework. A population of candidate solutions is repeatedly
//! evaluated, selected, recombined and perturbed over a fixed number of
//! generations, each step governed by an exchangeable operator.

pub mod crossover;
pub mod engine;
pub mod error;
pub mod factory;
pub mod fitness;
pub mod individual;
pub mod mutation;
pub mod parallel;
pub mod random;
pub mod select;
