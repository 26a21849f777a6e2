//! The evolution engine.
//!
//! One generation runs evaluate → select → recombine → mutate, replacing the
//! population wholesale; the loop runs for exactly the configured number of
//! generations, with no convergence detection and no early exit. Selection
//! and recombination are the serialization points of a generation; fitness
//! evaluation may run concurrently, which by contract returns the same score
//! vector as a sequential pass.
//!
//! The whole run is modeled by spec functions: for a modeled random source
//! the returned population is pinned to a function of the configuration, the
//! inputs and the source state, so identical inputs provably yield identical
//! outputs.

use core::marker::PhantomData;

use vstd::prelude::*;

use crate::crossover::{two_child_operator, CrossoverOperator};
use crate::error::EngineError;
use crate::fitness::Fitness;
use crate::individual::{fitness_of_all, opt_views, views_of, Individual, IndividualFactory};
use crate::mutation::MutationOperator;
use crate::parallel::par_fitness;
use crate::random::RandomSource;
use crate::select::{chosen_from, SelectionStrategy};

verus! {

/// The offspring, by view, of a parent sequence: consecutive pairs each
/// yield their operator children, and an odd final parent passes through
/// unchanged.
pub open spec fn offspring_of<R: RandomSource, I: Individual<R>, C: CrossoverOperator<R, I>>(
    c: C,
    parents: Seq<I::V>,
) -> Seq<I::V>
    decreases parents.len(),
{
    if parents.len() >= 2 {
        c.crossover_of(parents[0], parents[1]) + offspring_of(c, parents.skip(2))
    } else if parents.len() == 1 {
        seq![parents[0]]
    } else {
        Seq::empty()
    }
}

/// With an odd number of parents the final unpaired parent passes through
/// recombination unchanged: it reappears, by view, as the last offspring,
/// with no operator applied to it.
pub proof fn lemma_odd_parent_passes_through<
    R: RandomSource,
    I: Individual<R>,
    C: CrossoverOperator<R, I>,
>(c: C, parents: Seq<I::V>)
    requires
        parents.len() % 2 == 1,
    ensures
        offspring_of(c, parents).len() >= 1,
        offspring_of(c, parents).last() == parents.last(),
    decreases parents.len(),
{
    if parents.len() >= 2 {
        lemma_odd_parent_passes_through(c, parents.skip(2));
        c.crossover_of_nonempty(parents[0], parents[1]);
    }
}

/// The population, by view, after every slot was mutated in order, and the
/// source state left behind.
pub open spec fn mutate_all_of<R: RandomSource, I: Individual<R>, M: MutationOperator<R, I>>(
    m: M,
    views: Seq<I::V>,
    r: R,
) -> (Seq<I::V>, R)
    decreases views.len(),
{
    if views.len() == 0 {
        (Seq::empty(), r)
    } else {
        let first = m.mutate_of(views[0], r);
        let rest = mutate_all_of(m, views.skip(1), first.1);
        (seq![first.0] + rest.0, rest.1)
    }
}

/// The population, by view, a factory builds slot by slot, and the source
/// state left behind.
pub open spec fn generate_all_of<
    R: RandomSource,
    I: Individual<R>,
    G: IndividualFactory<R, I>,
>(g: G, count: nat, r: R) -> (Seq<I::V>, R)
    decreases count,
{
    if count == 0 {
        (Seq::empty(), r)
    } else {
        let first = g.generate_of(r);
        let rest = generate_all_of(g, (count - 1) as nat, first.1);
        (seq![first.0] + rest.0, rest.1)
    }
}

/// The generational evolution engine, parametric over the candidate type,
/// the random source and the three operators.
pub struct GeneticAlgorithm<R, I, S, C, M> where
    R: RandomSource,
    I: Individual<R>,
    S: SelectionStrategy<R, I>,
    C: CrossoverOperator<R, I>,
    M: MutationOperator<R, I>,
 {
    pub population_size: usize,
    pub selection_strategy: S,
    pub crossover_operator: C,
    pub mutation_operator: M,
    pub parallel_fitness: bool,
    pub marker: PhantomData<(R, I)>,
}

impl<R, I, S, C, M> GeneticAlgorithm<R, I, S, C, M> where
    R: RandomSource,
    I: Individual<R>,
    S: SelectionStrategy<R, I>,
    C: CrossoverOperator<R, I>,
    M: MutationOperator<R, I>,
 {
    /// An engine over populations of `population_size` candidates, with the
    /// given operators. Fitness evaluation starts out sequential; see
    /// `enable_parallel_evaluation`.
    pub fn new(
        population_size: usize,
        selection_strategy: S,
        crossover_operator: C,
        mutation_operator: M,
    ) -> (r: GeneticAlgorithm<R, I, S, C, M>)
        ensures
            r.population_size == population_size,
            r.selection_strategy == selection_strategy,
            r.crossover_operator == crossover_operator,
            r.mutation_operator == mutation_operator,
            r.parallel_fitness == false,
    {
        GeneticAlgorithm {
            population_size,
            selection_strategy,
            crossover_operator,
            mutation_operator,
            parallel_fitness: false,
            marker: PhantomData,
        }
    }

    /// Evaluate fitness concurrently from now on. The choice does not change
    /// any result: evaluation is pinned to the same score vector either way.
    pub fn enable_parallel_evaluation(&mut self)
        ensures
            final(self).population_size == old(self).population_size,
            final(self).selection_strategy == old(self).selection_strategy,
            final(self).crossover_operator == old(self).crossover_operator,
            final(self).mutation_operator == old(self).mutation_operator,
            final(self).parallel_fitness == true,
    {
        self.parallel_fitness = true;
    }

    /// The outcome of one generation from population `views` and source
    /// state `r`: evaluate, select, recombine, mutate.
    pub open spec fn generation_of(&self, views: Seq<I::V>, r: R) -> Result<
        (Seq<I::V>, R),
        EngineError,
    > {
        match self.selection_strategy.select_of(views, fitness_of_all::<I>(views), r) {
            Err(e) => Err(e),
            Ok(sel) => Ok(
                mutate_all_of(self.mutation_operator, offspring_of(self.crossover_operator, sel.0), sel.1),
            ),
        }
    }

    /// The outcome of `gens` generations from population `views` and source
    /// state `r`.
    pub open spec fn evolve_of(&self, gens: nat, views: Seq<I::V>, r: R) -> Result<
        (Seq<I::V>, R),
        EngineError,
    >
        decreases gens,
    {
        if gens == 0 {
            Ok((views, r))
        } else {
            match self.generation_of(views, r) {
                Err(e) => Err(e),
                Ok(g1) => self.evolve_of((gens - 1) as nat, g1.0, g1.1),
            }
        }
    }

    /// The outcome of a whole `evolve` call: initialization from the
    /// supplied population or the factory, then `gens` generations.
    pub open spec fn evolve_setup_of<G: IndividualFactory<R, I>>(
        &self,
        gens: nat,
        init: Option<Seq<I::V>>,
        generator: Option<G>,
        r: R,
    ) -> Result<(Seq<I::V>, R), EngineError> {
        match init {
            Some(views) => if views.len() != self.population_size {
                Err(EngineError::ContractViolation)
            } else {
                self.evolve_of(gens, views, r)
            },
            None => match generator {
                None => Err(EngineError::MissingGenerator),
                Some(g) => {
                    let start = generate_all_of(g, self.population_size as nat, r);
                    self.evolve_of(gens, start.0, start.1)
                },
            },
        }
    }

    /// Score every candidate, at its own index. Runs concurrently when
    /// configured to; the scores are the same either way.
    fn evaluate(&self, population: &Vec<I>) -> (fit: Vec<Fitness>)
        ensures
            fit@ == fitness_of_all::<I>(views_of(population@)),
    {
        if self.parallel_fitness {
            par_fitness(population)
        } else {
            let ghost all = fitness_of_all::<I>(views_of(population@));
            let n = population.len();
            let mut fit: Vec<Fitness> = Vec::new();
            let mut i: usize = 0;
            while i < n
                invariant
                    i <= n,
                    n == population@.len(),
                    all == fitness_of_all::<I>(views_of(population@)),
                    fit@ == all.take(i as int),
                decreases n - i,
            {
                fit.push(population[i].fitness());
                proof {
                    assert(all.take(i as int + 1) =~= all.take(i as int).push(
                        I::fitness_of(population@[i as int]@),
                    ));
                }
                i = i + 1;
            }
            proof {
                assert(all.take(n as int) =~= all);
            }
            fit
        }
    }

    /// Partition the parents into consecutive pairs and collect each pair's
    /// operator children; an odd final parent passes through unchanged. With
    /// a two-child operator the offspring count equals the parent count.
    #[verifier::loop_isolation(false)]
    pub fn recombine(&self, parents: &Vec<I>) -> (offspring: Vec<I>)
        ensures
            views_of(offspring@) == offspring_of(self.crossover_operator, views_of(parents@)),
            parents@.len() >= 1 ==> offspring@.len() >= 1,
            two_child_operator::<R, I, C>(self.crossover_operator) ==> offspring@.len()
                == parents@.len(),
    {
        let ghost pviews = views_of(parents@);
        let n = parents.len();
        let mut offspring: Vec<I> = Vec::new();
        let mut i: usize = 0;
        proof {
            assert(views_of(offspring@) =~= Seq::<I::V>::empty());
            assert(pviews.skip(0) =~= pviews);
            assert(Seq::<I::V>::empty() + offspring_of(self.crossover_operator, pviews)
                =~= offspring_of(self.crossover_operator, pviews));
        }
        while i < n && i + 1 < n
            invariant
                i <= n,
                i >= 1 ==> offspring@.len() >= 1,
                two_child_operator::<R, I, C>(self.crossover_operator) ==> offspring@.len()
                    == i,
                offspring_of(self.crossover_operator, pviews) == views_of(offspring@)
                    + offspring_of(self.crossover_operator, pviews.skip(i as int)),
            decreases n - i,
        {
            let ghost off_prev = offspring@;
            let mut children = self.crossover_operator.crossover(&parents[i], &parents[i + 1]);
            let ghost cviews = views_of(children@);
            let ghost clen = children@.len();
            offspring.append(&mut children);
            proof {
                assert(views_of(offspring@) =~= views_of(off_prev) + cviews);
                assert(pviews.skip(i as int)[0] == pviews[i as int]);
                assert(pviews.skip(i as int)[1] == pviews[i as int + 1]);
                assert(pviews.skip(i as int).skip(2) =~= pviews.skip(i as int + 2));
                assert(cviews == self.crossover_operator.crossover_of(
                    pviews[i as int],
                    pviews[i as int + 1],
                ));
                assert((views_of(off_prev) + cviews) + offspring_of(
                    self.crossover_operator,
                    pviews.skip(i as int + 2),
                ) =~= views_of(off_prev) + (cviews + offspring_of(
                    self.crossover_operator,
                    pviews.skip(i as int + 2),
                )));
            }
            i = i + 2;
        }
        if i < n {
            let last = parents[i].duplicate();
            offspring.push(last);
            proof {
                assert(pviews.skip(i as int).len() == 1);
                assert(pviews.skip(i as int)[0] == pviews[i as int]);
                assert(offspring_of(self.crossover_operator, pviews.skip(i as int)) =~= seq![
                    pviews[i as int],
                ]);
                assert(views_of(offspring@) =~= views_of(offspring@.drop_last()) + seq![
                    pviews[i as int],
                ]);
            }
        } else {
            proof {
                assert(pviews.skip(i as int).len() == 0);
                assert(offspring_of(self.crossover_operator, pviews.skip(i as int))
                    =~= Seq::<I::V>::empty());
                assert(views_of(offspring@) + Seq::<I::V>::empty() =~= views_of(offspring@));
            }
        }
        offspring
    }

    /// Mutate every offspring slot in place, in slot order.
    #[verifier::loop_isolation(false)]
    fn mutate_population(&self, offspring: &mut Vec<I>, rng: &mut R)
        ensures
            final(offspring)@.len() == old(offspring)@.len(),
            R::obeys_model() ==> (views_of(final(offspring)@), *final(rng)) == mutate_all_of(
                self.mutation_operator,
                views_of(old(offspring)@),
                *old(rng),
            ),
    {
        let ghost views0 = views_of(old(offspring)@);
        let ghost r0 = *old(rng);
        let n = offspring.len();
        let mut i: usize = 0;
        proof {
            assert(views_of(offspring@).skip(0) =~= views0.skip(0));
            assert(views_of(offspring@).take(0) =~= Seq::<I::V>::empty());
            assert(views0.skip(0) =~= views0);
            if R::obeys_model() {
                let whole = mutate_all_of(self.mutation_operator, views0, r0);
                assert(Seq::<I::V>::empty() + whole.0 =~= whole.0);
                assert(whole == (whole.0, whole.1));
            }
        }
        while i < n
            invariant
                i <= n,
                offspring@.len() == n,
                views_of(offspring@).skip(i as int) == views0.skip(i as int),
                R::obeys_model() ==> {
                    let rem = mutate_all_of(self.mutation_operator, views0.skip(i as int), *rng);
                    mutate_all_of(self.mutation_operator, views0, r0) == (
                        views_of(offspring@).take(i as int) + rem.0,
                        rem.1,
                    )
                },
            decreases n - i,
        {
            let ghost pre = views_of(offspring@);
            let ghost r_pre = *rng;
            self.mutation_operator.mutate(&mut offspring[i], rng);
            proof {
                assert(views_of(offspring@) =~= pre.update(i as int, offspring@[i as int]@));
                assert(pre.skip(i as int) == views0.skip(i as int));
                assert(pre.skip(i as int + 1) =~= pre.skip(i as int).skip(1));
                assert(views0.skip(i as int + 1) =~= views0.skip(i as int).skip(1));
                assert(views_of(offspring@).skip(i as int + 1) =~= pre.skip(i as int + 1));
                assert(views_of(offspring@).skip(i as int + 1) =~= views0.skip(i as int + 1));
                if R::obeys_model() {
                    assert(views0.skip(i as int)[0] == views0[i as int]);
                    assert(pre.skip(i as int)[0] == pre[i as int]);
                    assert(pre[i as int] == views0[i as int]);
                    assert(views0.skip(i as int).skip(1) =~= views0.skip(i as int + 1));
                    assert((offspring@[i as int]@, *rng) == self.mutation_operator.mutate_of(
                        views0[i as int],
                        r_pre,
                    ));
                    assert(views_of(offspring@).take(i as int + 1) =~= views_of(
                        offspring@,
                    ).take(i as int).push(offspring@[i as int]@));
                    assert(views_of(offspring@).take(i as int) =~= pre.take(i as int));
                }
            }
            i = i + 1;
        }
        proof {
            assert(views_of(offspring@).take(n as int) =~= views_of(offspring@));
            if R::obeys_model() {
                assert(views0.skip(n as int).len() == 0);
                assert(views_of(offspring@) + Seq::<I::V>::empty() =~= views_of(offspring@));
            }
        }
    }

    /// Build the initial population from the factory, slot by slot.
    #[verifier::loop_isolation(false)]
    fn generate_initial<G: IndividualFactory<R, I>>(&self, generator: &G, rng: &mut R) -> (pop:
        Vec<I>)
        ensures
            pop@.len() == self.population_size,
            R::obeys_model() ==> (views_of(pop@), *final(rng)) == generate_all_of(
                *generator,
                self.population_size as nat,
                *old(rng),
            ),
    {
        let ghost r0 = *old(rng);
        let count = self.population_size;
        let mut pop: Vec<I> = Vec::new();
        let mut i: usize = 0;
        while i < count
            invariant
                i <= count,
                pop@.len() == i,
                R::obeys_model() ==> {
                    let rem = generate_all_of(*generator, (count - i) as nat, *rng);
                    generate_all_of(*generator, count as nat, r0) == (
                        views_of(pop@) + rem.0,
                        rem.1,
                    )
                },
            decreases count - i,
        {
            let ghost r_pre = *rng;
            let ind = generator.generate(rng);
            let ghost pop_prev = pop@;
            pop.push(ind);
            proof {
                if R::obeys_model() {
                    let rem_after = generate_all_of(*generator, (count - i - 1) as nat, *rng);
                    assert(views_of(pop@) =~= views_of(pop_prev) + seq![pop@[i as int]@]);
                    assert(views_of(pop_prev) + (seq![pop@[i as int]@] + rem_after.0)
                        =~= views_of(pop@) + rem_after.0);
                }
            }
            i = i + 1;
        }
        proof {
            if R::obeys_model() {
                assert(views_of(pop@) + generate_all_of(
                    *generator,
                    0nat,
                    *rng,
                ).0 =~= views_of(pop@));
            }
        }
        pop
    }

    /// Run the evolution for exactly `generations` generations and return
    /// the final population.
    ///
    /// The population starts from `initial_population` when one is supplied
    /// — it must then hold exactly `population_size` candidates — and is
    /// otherwise built by `generator`; with neither, the call fails with
    /// `MissingGenerator`. A `ContractViolation` reports a wrongly sized
    /// supplied population, or an empty population reaching selection. All
    /// randomness is drawn from `rng`; for a modeled source the result is
    /// pinned to `evolve_setup_of`, so identical inputs yield identical
    /// outputs.
    #[verifier::loop_isolation(false)]
    pub fn evolve<G: IndividualFactory<R, I>>(
        &self,
        generations: usize,
        rng: &mut R,
        initial_population: Option<Vec<I>>,
        generator: Option<&G>,
    ) -> (res: Result<Vec<I>, EngineError>)
        ensures
            (initial_population is None && generator is None) <==> res == Err::<
                Vec<I>,
                EngineError,
            >(EngineError::MissingGenerator),
            res == Err::<Vec<I>, EngineError>(EngineError::ContractViolation) <==> (
            match initial_population {
                Some(p) => p@.len() != self.population_size || (self.population_size == 0
                    && generations >= 1),
                None => generator is Some && self.population_size == 0 && generations >= 1,
            }),
            (!(initial_population is None && generator is None) && (initial_population matches Some(
                p,
            ) ==> p@.len() == self.population_size) && (self.population_size >= 1 || generations
                == 0) && (forall|v: I::V| (#[trigger] I::fitness_of(v)) is Value)) ==> res is Ok,
            initial_population matches Some(p) ==> ((generations == 0 && p@.len()
                == self.population_size) ==> res == Ok::<Vec<I>, EngineError>(p)),
            res matches Ok(pop) ==> (two_child_operator::<R, I, C>(self.crossover_operator)
                ==> pop@.len() == self.population_size),
            R::obeys_model() ==> match (res, self.evolve_setup_of(
                generations as nat,
                opt_views(initial_population),
                match generator {
                    Some(g) => Some(*g),
                    None => None,
                },
                *old(rng),
            )) {
                (Ok(pop), Ok(fin)) => views_of(pop@) == fin.0 && *final(rng) == fin.1,
                (Err(e), Err(e2)) => e == e2,
                _ => false,
            },
    {
        let ghost init_views = opt_views(initial_population);
        let ghost gen_opt: Option<G> = match generator {
            Some(g) => Some(*g),
            None => None,
        };
        let ghost r_entry = *old(rng);
        let mut population: Vec<I>;
        match initial_population {
            Some(p) => {
                if p.len() != self.population_size {
                    return Err(EngineError::ContractViolation);
                }
                population = p;
            },
            None => {
                match generator {
                    Some(g) => {
                        population = self.generate_initial(g, rng);
                    },
                    None => {
                        return Err(EngineError::MissingGenerator);
                    },
                }
            },
        }
        let ghost views0 = views_of(population@);
        let ghost r_start = *rng;
        proof {
            if R::obeys_model() {
                assert(self.evolve_setup_of(generations as nat, init_views, gen_opt, r_entry)
                    == self.evolve_of(generations as nat, views0, r_start));
            }
        }
        if generations == 0 {
            return Ok(population);
        }
        let mut g: usize = 0;
        while g < generations
            invariant
                g <= generations,
                self.population_size >= 1 ==> population@.len() >= 1,
                g >= 1 ==> self.population_size >= 1,
                g == 0 ==> population@.len() == self.population_size,
                two_child_operator::<R, I, C>(self.crossover_operator) ==> population@.len()
                    == self.population_size,
                R::obeys_model() ==> self.evolve_setup_of(
                    generations as nat,
                    init_views,
                    gen_opt,
                    r_entry,
                ) == self.evolve_of((generations - g) as nat, views_of(population@), *rng),
            decreases generations - g,
        {
            let ghost cur = views_of(population@);
            let ghost r_gen = *rng;
            let fitness_values = self.evaluate(&population);
            let parents = match self.selection_strategy.select(
                &population,
                &fitness_values,
                rng,
            ) {
                Ok(p) => p,
                Err(e) => {
                    proof {
                        if (forall|v: I::V| (#[trigger] I::fitness_of(v)) is Value)
                            && population@.len() >= 1 {
                            assert forall|j: int|
                                0 <= j < fitness_values@.len() implies fitness_values@[j] is Value by {
                                assert(fitness_values@[j] == I::fitness_of(cur[j]));
                            }
                            assert(false);
                        }
                    }
                    return Err(e);
                },
            };
            let mut offspring = self.recombine(&parents);
            self.mutate_population(&mut offspring, rng);
            proof {
                if R::obeys_model() {
                    assert(self.evolve_of((generations - g) as nat, cur, r_gen) == self.evolve_of(
                        (generations - g - 1) as nat,
                        views_of(offspring@),
                        *rng,
                    ));
                }
            }
            population = offspring;
            g = g + 1;
        }
        Ok(population)
    }
}

} // verus!
