use genetic::crossover::SinglePointCrossover;
use genetic::engine::GeneticAlgorithm;
use genetic::error::EngineError;
use genetic::factory::UniformFactory;
use genetic::fitness::Fitness;
use genetic::individual::{Scored, VecIndividual};
use genetic::mutation::GaussianMutation;
use genetic::random::{StdRandom, Xorshift};
use genetic::select::TournamentSelection;

type Engine = GeneticAlgorithm<
    Xorshift,
    VecIndividual,
    TournamentSelection,
    SinglePointCrossover,
    GaussianMutation,
>;

type StdEngine = GeneticAlgorithm<
    StdRandom,
    VecIndividual,
    TournamentSelection,
    SinglePointCrossover,
    GaussianMutation,
>;

fn engine(population_size: usize, tournament_size: usize) -> Engine {
    GeneticAlgorithm::new(
        population_size,
        TournamentSelection::new(tournament_size),
        SinglePointCrossover,
        GaussianMutation::new(1, 2, 100),
    )
}

fn uniform_population(count: usize, genes: &[i64]) -> Vec<VecIndividual> {
    (0..count)
        .map(|_| VecIndividual::from_genes(genes.to_vec()))
        .collect()
}

fn gene_table(population: &[VecIndividual]) -> Vec<Vec<i64>> {
    population.iter().map(|i| i.genes.clone()).collect()
}

fn varied_population(count: usize, gene_length: usize) -> Vec<VecIndividual> {
    (0..count)
        .map(|i| {
            VecIndividual::from_genes(
                (0..gene_length)
                    .map(|j| (i as i64 + 1) * 10 + j as i64 * 3 - 7)
                    .collect(),
            )
        })
        .collect()
}

#[test]
fn evolve_keeps_population_size() {
    let ga = engine(5, 2);
    let initial = uniform_population(5, &[10, 20, 30]);
    let mut rng = Xorshift::new(1);
    let out = ga
        .evolve(3, &mut rng, Some(initial), None::<&UniformFactory>)
        .unwrap();
    assert_eq!(out.len(), 5);
}

#[test]
fn evolve_zero_generations_returns_input_unchanged() {
    let ga = engine(2, 2);
    let initial = vec![
        VecIndividual::from_genes(vec![1, 2]),
        VecIndividual::from_genes(vec![3, 4]),
    ];
    let mut rng = Xorshift::new(1);
    let out = ga
        .evolve(0, &mut rng, Some(initial), None::<&UniformFactory>)
        .unwrap();
    assert_eq!(gene_table(&out), vec![vec![1, 2], vec![3, 4]]);
}

#[test]
fn evolve_is_deterministic_for_a_fixed_seed() {
    let ga = engine(6, 3);
    let initial = varied_population(6, 4);
    let mut rng1 = Xorshift::new(424242);
    let mut rng2 = Xorshift::new(424242);
    let out1 = ga
        .evolve(4, &mut rng1, Some(initial.clone()), None::<&UniformFactory>)
        .unwrap();
    let out2 = ga
        .evolve(4, &mut rng2, Some(initial), None::<&UniformFactory>)
        .unwrap();
    assert_eq!(gene_table(&out1), gene_table(&out2));
    assert_eq!(rng1, rng2);
}

#[test]
fn evolve_is_deterministic_with_std_random() {
    let ga: StdEngine = GeneticAlgorithm::new(
        4,
        TournamentSelection::new(2),
        SinglePointCrossover,
        GaussianMutation::new(1, 2, 50),
    );
    let initial = uniform_population(4, &[7, 7, 7]);
    let mut rng1 = StdRandom::from_seed(99);
    let mut rng2 = StdRandom::from_seed(99);
    let out1 = ga
        .evolve(3, &mut rng1, Some(initial.clone()), None::<&UniformFactory>)
        .unwrap();
    let out2 = ga
        .evolve(3, &mut rng2, Some(initial), None::<&UniformFactory>)
        .unwrap();
    assert_eq!(gene_table(&out1), gene_table(&out2));
}

#[test]
fn parallel_evaluation_changes_no_result() {
    // A varied population: wrong fitness scores would steer selection to
    // other winners and show up as a different final gene table.
    let initial = varied_population(6, 4);
    let serial = engine(6, 2);
    let mut parallel = engine(6, 2);
    parallel.enable_parallel_evaluation();
    let mut rng1 = Xorshift::new(2718);
    let mut rng2 = Xorshift::new(2718);
    let out1 = serial
        .evolve(3, &mut rng1, Some(initial.clone()), None::<&UniformFactory>)
        .unwrap();
    let out2 = parallel
        .evolve(3, &mut rng2, Some(initial), None::<&UniformFactory>)
        .unwrap();
    assert_eq!(gene_table(&out1), gene_table(&out2));
}

#[test]
fn odd_parent_count_passes_last_parent_through() {
    let ga = engine(3, 2);
    let parents = vec![
        VecIndividual::from_genes(vec![1, 2]),
        VecIndividual::from_genes(vec![3, 4]),
        VecIndividual::from_genes(vec![9, 9]),
    ];
    let offspring = ga.recombine(&parents);
    assert_eq!(offspring.len(), 3);
    assert_eq!(offspring[0].genes, vec![1, 4]);
    assert_eq!(offspring[1].genes, vec![3, 2]);
    assert_eq!(offspring[2].genes, vec![9, 9]);
}

#[test]
fn evolve_without_population_or_generator_fails() {
    let ga = engine(4, 2);
    let mut rng = Xorshift::new(1);
    let res = ga.evolve(1, &mut rng, None, None::<&UniformFactory>);
    assert_eq!(res.unwrap_err(), EngineError::MissingGenerator);
}

#[test]
fn evolve_rejects_wrongly_sized_population() {
    let ga = engine(3, 2);
    let initial = uniform_population(2, &[1]);
    let mut rng = Xorshift::new(1);
    let res = ga.evolve(1, &mut rng, Some(initial), None::<&UniformFactory>);
    assert_eq!(res.unwrap_err(), EngineError::ContractViolation);
}

#[test]
fn evolve_rejects_empty_population() {
    let ga = engine(0, 2);
    let factory = UniformFactory::new(2, 10);
    let mut rng = Xorshift::new(1);
    let res = ga.evolve(1, &mut rng, None, Some(&factory));
    assert_eq!(res.unwrap_err(), EngineError::ContractViolation);
}

#[test]
fn evolve_builds_population_from_factory() {
    let ga: Engine = GeneticAlgorithm::new(
        3,
        TournamentSelection::new(2),
        SinglePointCrossover,
        GaussianMutation::new(0, 1, 0),
    );
    let factory = UniformFactory::new(4, 10);
    let mut rng = Xorshift::new(8);
    let out = ga.evolve(2, &mut rng, None, Some(&factory)).unwrap();
    assert_eq!(out.len(), 3);
    for ind in &out {
        assert_eq!(ind.genes.len(), 4);
        for g in &ind.genes {
            assert!(-10 <= *g && *g <= 10);
        }
    }
}

#[test]
fn end_to_end_all_ones_scenario() {
    // Four all-ones candidates (scaled by 1000), one generation, binary
    // tournaments, a deterministic seed: the output has four candidates and
    // each fitness lies within one mutation half-width of the gene count.
    let ga: Engine = GeneticAlgorithm::new(
        4,
        TournamentSelection::new(2),
        SinglePointCrossover,
        GaussianMutation::new(1, 2, 100),
    );
    let initial = uniform_population(4, &[1000, 1000, 1000]);
    let mut rng = Xorshift::new(123456789);
    let out = ga
        .evolve(1, &mut rng, Some(initial), None::<&UniformFactory>)
        .unwrap();
    assert_eq!(out.len(), 4);
    for ind in &out {
        match ind.fitness() {
            Fitness::Value(f) => assert!((f - 3000).abs() <= 100, "fitness {}", f),
            Fitness::Undefined => panic!("defined genes must have a defined fitness"),
        }
    }
}
