//! Parallel fitness evaluation.
//!
//! Scoring the population is embarrassingly parallel: no candidate's score
//! depends on another's, and each result lands at its candidate's own index.
//! The fork-join evaluation below therefore returns the same score vector as
//! a sequential pass, which is what its contract states.

use vstd::prelude::*;

use rayon::iter::IntoParallelRefIterator;
use rayon::iter::ParallelIterator;

use crate::fitness::Fitness;
use crate::individual::{fitness_of_all, views_of, Scored};

verus! {

/// Score every candidate concurrently.
///
/// Relies on rayon's `par_iter().map(..).collect()`: collecting a mapped
/// indexed parallel iterator into a `Vec` keeps one result per input element,
/// in input order, so each score stands at the index of its candidate. The
/// closure only calls the candidates' own `fitness` capability, whose
/// contract pins each score.
#[verifier::external_body]
pub(crate) fn par_fitness<I: Scored>(population: &Vec<I>) -> (scores: Vec<Fitness>)
    ensures
        scores@ == fitness_of_all::<I>(views_of(population@)),
{
    population.par_iter().map(|ind| ind.fitness()).collect()
}

} // verus!
