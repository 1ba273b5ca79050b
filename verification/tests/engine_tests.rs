use spdkit::{Binary, Engine, EvolutionAlgorithm, GeneticBreeder, Survivor, Valuer};
use spdkit::fitness::Maximize;
use spdkit::individual::OneMax;
use spdkit::operators::selection::{ElitistSelection, RouletteWheelSelection};
use spdkit::operators::variation::OnePointCrossOver;
use spdkit::prelude::get_rng_with_seed;
use rand::Rng;

#[test]
fn test_engine() {
    // create a valuer gear
    let valuer = Valuer::new().with_fitness(Maximize).with_creator(OneMax);

    // create a survivor gear
    let survivor = Survivor::default();

    // create a breeder gear
    let breeder = GeneticBreeder::new()
        .with_crossover(OnePointCrossOver)
        .with_selector(RouletteWheelSelection::new(2));

    // setup the algorithm
    let algo = EvolutionAlgorithm::new(breeder, survivor);

    let mut rng = get_rng_with_seed(Some(10));
    let seeds = build_initial_genomes(10, &mut rng);
    let mut run = Engine::create().valuer(valuer).algorithm(algo).evolve(seeds);
    let mut count = 0;
    while count < 10 {
        match run.step(&mut rng) {
            Some(generation) => {
                let best = generation.best_individual();
                println!(
                    "# generation {}: best objective value = {}",
                    generation.index,
                    best.objective_value()
                );
            }
            None => break,
        }
        count += 1;
    }
}

// test only
fn build_initial_genomes(n: usize, rng: &mut rand::rngs::StdRng) -> Vec<Binary> {
    // generate `n` binary genomes in size of 11
    (0..n).map(|_| random_binary(11, rng)).collect()
}

fn random_binary(length: usize, rng: &mut rand::rngs::StdRng) -> Binary {
    let list: Vec<_> = (0..length).map(|_| rng.gen()).collect();
    Binary::new(list)
}

/// Seed ten four-bit genomes, maximize the count of set bits with elitist
/// selection plus one-point crossover and the breeder's single-bit
/// mutation, and watch the best objective value climb to the maximum.
#[test]
fn onemax_reaches_the_top() {
    let valuer = Valuer::new().with_fitness(Maximize).with_creator(OneMax);
    let survivor = Survivor::default();
    let breeder = GeneticBreeder::new()
        .with_crossover(OnePointCrossOver)
        .with_selector(ElitistSelection::new(2));
    let algo = EvolutionAlgorithm::new(breeder, survivor);

    let mut rng = get_rng_with_seed(Some(2024));
    let seeds: Vec<Binary> = vec![
        "0001", "0010", "0100", "1000", "0000", "0011", "0001", "0110", "0101", "1001",
    ]
    .iter()
    .map(|s| Binary::from_str(s))
    .collect();

    let mut run = Engine::create().valuer(valuer).algorithm(algo).evolve(seeds);
    let mut last_best: i64 = -1;
    let mut top: i64 = 0;
    for _ in 0..50 {
        match run.step(&mut rng) {
            Some(generation) => {
                let best = generation.best_individual().objective_value();
                // the best objective value never worsens
                assert!(best >= last_best, "best value dropped: {} -> {}", last_best, best);
                last_best = best;
                if best > top {
                    top = best;
                }
            }
            None => break,
        }
    }
    // the all-ones genome (objective value 4) is found
    assert_eq!(top, 4);
}
