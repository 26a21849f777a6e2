//! Recombination of parent pairs, and the reference operator: single-point
//! crossover.
//!
//! An operator may return any number of children of one pair, as long as it
//! returns at least one; the engine handles every count and never assumes
//! exactly two. The reference operator delegates to the candidates' own
//! recombination capability and returns its two children unmodified.

use vstd::prelude::*;

use crate::individual::{views_of, Individual};
use crate::random::RandomSource;

verus! {

/// A combiner of two parents into one or more children.
pub trait CrossoverOperator<R: RandomSource, I: Individual<R>>: Sized + Send + Sync {
    /// The children, by view, this operator produces from parents `a` and
    /// `b`.
    spec fn crossover_of(&self, a: I::V, b: I::V) -> Seq<I::V>;

    /// Every pair yields at least one child.
    proof fn crossover_of_nonempty(&self, a: I::V, b: I::V)
        ensures
            self.crossover_of(a, b).len() >= 1,
    ;

    /// Combine two parents into children; neither parent is changed.
    fn crossover(&self, parent1: &I, parent2: &I) -> (children: Vec<I>)
        ensures
            views_of(children@) == self.crossover_of(parent1@, parent2@),
            children@.len() >= 1,
    ;
}

/// The operator yields exactly two children of every pair — the condition
/// under which recombination keeps the population size.
pub open spec fn two_child_operator<R: RandomSource, I: Individual<R>, C: CrossoverOperator<R, I>>(
    c: C,
) -> bool {
    forall|a: I::V, b: I::V| (#[trigger] c.crossover_of(a, b)).len() == 2
}

/// The reference operator: delegate to the candidates' own single-point
/// recombination and return exactly its two children.
#[derive(Clone, Copy, Debug)]
pub struct SinglePointCrossover;

impl<R: RandomSource, I: Individual<R>> CrossoverOperator<R, I> for SinglePointCrossover {
    open spec fn crossover_of(&self, a: I::V, b: I::V) -> Seq<I::V> {
        seq![I::crossover_of(a, b).0, I::crossover_of(a, b).1]
    }

    proof fn crossover_of_nonempty(&self, a: I::V, b: I::V) {
    }

    fn crossover(&self, parent1: &I, parent2: &I) -> (children: Vec<I>) {
        let (c1, c2) = parent1.crossover(parent2);
        let mut children: Vec<I> = Vec::new();
        children.push(c1);
        children.push(c2);
        proof {
            assert(views_of(children@) =~= seq![
                I::crossover_of(parent1@, parent2@).0,
                I::crossover_of(parent1@, parent2@).1,
            ]);
        }
        children
    }
}

/// Single-point crossover always yields exactly two children.
pub proof fn lemma_single_point_two_child<R: RandomSource, I: Individual<R>>()
    ensures
        two_child_operator::<R, I, SinglePointCrossover>(SinglePointCrossover),
{
}

} // verus!
