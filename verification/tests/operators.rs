use genetic::crossover::{CrossoverOperator, SinglePointCrossover};
use genetic::error::EngineError;
use genetic::fitness::Fitness;
use genetic::individual::{Individual, Scored, VecIndividual};
use genetic::mutation::{GaussianMutation, MutationOperator};
use genetic::random::{RandomSource, StdRandom, Xorshift, ZERO_SEED_SUBSTITUTE};
use genetic::select::{tournament_winner, SelectionStrategy, TournamentSelection};

fn cross(a: &VecIndividual, b: &VecIndividual) -> Vec<VecIndividual> {
    <SinglePointCrossover as CrossoverOperator<Xorshift, VecIndividual>>::crossover(
        &SinglePointCrossover,
        a,
        b,
    )
}

#[test]
fn fitness_comparisons() {
    let a = Fitness::Value(3);
    let b = Fitness::Value(5);
    assert_eq!(a.partial_ge(&b), Some(false));
    assert_eq!(b.partial_ge(&a), Some(true));
    assert_eq!(b.partial_ge(&b), Some(true));
    assert_eq!(a.partial_ge(&Fitness::Undefined), None);
    assert_eq!(Fitness::Undefined.partial_ge(&a), None);
    assert_eq!(Fitness::Undefined.partial_ge(&Fitness::Undefined), None);
}

#[test]
fn gene_sum_fitness() {
    let ind = VecIndividual::from_genes(vec![1, -2, 7]);
    assert_eq!(ind.fitness(), Fitness::Value(6));
    let empty = VecIndividual::from_genes(vec![]);
    assert_eq!(empty.fitness(), Fitness::Value(0));
}

#[test]
fn tournament_winner_takes_last_of_equal_maxima() {
    // Indices 0 and 1 share the maximal score; the last-drawn of the two
    // must win, so draw order decides.
    let fit = vec![Fitness::Value(5), Fitness::Value(5), Fitness::Value(3)];
    assert_eq!(tournament_winner(&fit, &vec![0, 1, 2]), Ok(1));
    assert_eq!(tournament_winner(&fit, &vec![1, 0, 2]), Ok(0));
    assert_eq!(tournament_winner(&fit, &vec![2, 0, 1, 0]), Ok(0));
}

#[test]
fn tournament_winner_prefers_higher_fitness() {
    let fit = vec![Fitness::Value(1), Fitness::Value(9), Fitness::Value(4)];
    assert_eq!(tournament_winner(&fit, &vec![0, 2]), Ok(2));
    assert_eq!(tournament_winner(&fit, &vec![1, 0, 2]), Ok(1));
}

#[test]
fn tournament_winner_refuses_undefined_comparison() {
    let fit = vec![Fitness::Value(1), Fitness::Undefined];
    assert_eq!(
        tournament_winner(&fit, &vec![0, 1]),
        Err(EngineError::NonComparableFitness)
    );
    assert_eq!(
        tournament_winner(&fit, &vec![1, 0]),
        Err(EngineError::NonComparableFitness)
    );
}

#[test]
fn tournament_winner_single_draw_never_compares() {
    // One draw means no comparison at all, so even an undefined score wins
    // its own single-entry tournament.
    let fit = vec![Fitness::Value(1), Fitness::Undefined];
    assert_eq!(tournament_winner(&fit, &vec![1]), Ok(1));
}

#[test]
fn select_rejects_empty_population() {
    let strategy = TournamentSelection::new(2);
    let population: Vec<VecIndividual> = vec![];
    let fitness_values: Vec<Fitness> = vec![];
    let mut rng = Xorshift::new(7);
    let res = strategy.select(&population, &fitness_values, &mut rng);
    assert_eq!(res.unwrap_err(), EngineError::ContractViolation);
}

#[test]
fn select_rejects_length_mismatch() {
    let strategy = TournamentSelection::new(2);
    let population = vec![VecIndividual::from_genes(vec![1])];
    let fitness_values = vec![Fitness::Value(1), Fitness::Value(2)];
    let mut rng = Xorshift::new(7);
    let res = strategy.select(&population, &fitness_values, &mut rng);
    assert_eq!(res.unwrap_err(), EngineError::ContractViolation);
}

#[test]
fn select_reports_non_comparable_fitness() {
    let strategy = TournamentSelection::new(2);
    let population = vec![
        VecIndividual::from_genes(vec![1]),
        VecIndividual::from_genes(vec![2]),
    ];
    let fitness_values = vec![Fitness::Undefined, Fitness::Undefined];
    let mut rng = Xorshift::new(7);
    let res = strategy.select(&population, &fitness_values, &mut rng);
    assert_eq!(res.unwrap_err(), EngineError::NonComparableFitness);
}

#[test]
fn select_returns_one_parent_per_slot() {
    let strategy = TournamentSelection::new(3);
    let population = vec![
        VecIndividual::from_genes(vec![1]),
        VecIndividual::from_genes(vec![5]),
        VecIndividual::from_genes(vec![9]),
    ];
    let fitness_values: Vec<Fitness> = population.iter().map(|i| i.fitness()).collect();
    let mut rng = Xorshift::new(11);
    let parents = strategy
        .select(&population, &fitness_values, &mut rng)
        .unwrap();
    assert_eq!(parents.len(), 3);
    for p in &parents {
        assert!(population.iter().any(|q| q.genes == p.genes));
    }
}

#[test]
fn single_point_crossover_splits_at_midpoint() {
    let a = VecIndividual::from_genes(vec![1, 2, 3, 4]);
    let b = VecIndividual::from_genes(vec![5, 6, 7, 8]);
    let children = cross(&a, &b);
    assert_eq!(children.len(), 2);
    assert_eq!(children[0].genes, vec![1, 2, 7, 8]);
    assert_eq!(children[1].genes, vec![5, 6, 3, 4]);
    // Parents are untouched.
    assert_eq!(a.genes, vec![1, 2, 3, 4]);
    assert_eq!(b.genes, vec![5, 6, 7, 8]);
}

#[test]
fn single_point_crossover_odd_length() {
    let a = VecIndividual::from_genes(vec![1, 2, 3, 4, 5]);
    let b = VecIndividual::from_genes(vec![6, 7, 8, 9, 10]);
    let children = cross(&a, &b);
    assert_eq!(children.len(), 2);
    assert_eq!(children[0].genes, vec![1, 2, 8, 9, 10]);
    assert_eq!(children[1].genes, vec![6, 7, 3, 4, 5]);
}

#[test]
fn mutate_changes_at_most_one_gene_within_strength() {
    let mut rng = Xorshift::new(99);
    for _ in 0..200 {
        let before = vec![10, 20, 30, 40];
        let mut ind = VecIndividual::from_genes(before.clone());
        ind.mutate(&mut rng, 7);
        let mut changed = 0;
        for (g, o) in ind.genes.iter().zip(before.iter()) {
            if g != o {
                changed += 1;
                assert!((g - o).abs() <= 7);
            }
        }
        assert!(changed <= 1);
    }
}

#[test]
fn mutate_empty_individual_is_a_no_op() {
    let mut rng = Xorshift::new(3);
    let before = rng;
    let mut ind = VecIndividual::from_genes(vec![]);
    ind.mutate(&mut rng, 5);
    assert!(ind.genes.is_empty());
    assert_eq!(rng, before);
}

#[test]
fn zero_rate_never_mutates() {
    let operator = GaussianMutation::new(0, 10, 100);
    let mut rng = Xorshift::new(5);
    for _ in 0..100 {
        let mut ind = VecIndividual::from_genes(vec![1, 2, 3]);
        operator.mutate(&mut ind, &mut rng);
        assert_eq!(ind.genes, vec![1, 2, 3]);
    }
}

#[test]
fn mutation_rate_converges_to_probability() {
    // With rate 1/4 and a wide perturbation interval, the fraction of
    // visibly changed individuals over many trials stays near 1/4.
    let operator = GaussianMutation::new(1, 4, 1000);
    let mut rng = Xorshift::new(20260209);
    let trials = 10000;
    let mut changed = 0;
    for _ in 0..trials {
        let mut ind = VecIndividual::from_genes(vec![0]);
        operator.mutate(&mut ind, &mut rng);
        if ind.genes[0] != 0 {
            changed += 1;
        }
    }
    let fraction = changed as f64 / trials as f64;
    assert!(
        (fraction - 0.25).abs() < 0.03,
        "observed mutation fraction {}",
        fraction
    );
}

#[test]
fn std_random_mutation_respects_bound() {
    // The outcome bound holds for any source, modeled or not: at most one
    // gene moves, by at most the operator's strength.
    let operator = GaussianMutation::new(1, 1, 5);
    let mut rng = StdRandom::from_seed(4242);
    for _ in 0..200 {
        let before = vec![100, -100, 0];
        let mut ind = VecIndividual::from_genes(before.clone());
        operator.mutate(&mut ind, &mut rng);
        let mut changed = 0;
        for (g, o) in ind.genes.iter().zip(before.iter()) {
            if g != o {
                changed += 1;
                assert!((g - o).abs() <= 5);
            }
        }
        assert!(changed <= 1);
    }
}

#[test]
fn xorshift_same_seed_same_draws() {
    let mut a = Xorshift::new(12345);
    let mut b = Xorshift::new(12345);
    for _ in 0..50 {
        assert_eq!(a.next_below(1000), b.next_below(1000));
    }
}

#[test]
fn xorshift_zero_seed_is_remapped() {
    let z = Xorshift::new(0);
    assert_eq!(z, Xorshift::new(ZERO_SEED_SUBSTITUTE));
    let mut rng = Xorshift::new(0);
    // The all-zero state would only ever draw zero; the substitute must not.
    let mut saw_nonzero = false;
    for _ in 0..10 {
        if rng.next_below(100) != 0 {
            saw_nonzero = true;
        }
    }
    assert!(saw_nonzero);
}

#[test]
fn std_random_respects_bound() {
    let mut rng = StdRandom::from_seed(77);
    for bound in 1..50u64 {
        for _ in 0..20 {
            assert!(rng.next_below(bound) < bound);
        }
    }
}
