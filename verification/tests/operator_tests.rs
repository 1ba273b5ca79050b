use spdkit::{Binary, Population};
use spdkit::fitness::Maximize;
use spdkit::individual::OneMax;
use spdkit::operators::selection::{ElitistSelection, RandomSelection, RouletteWheelSelection,
    StochasticUniversalSampling, TournamentSelection};
use spdkit::operators::variation::{FlipBitMutation, OnePointCrossOver, TriadicCrossOver};
use spdkit::prelude::{Create, SelectionOperator, VariationOperator, get_rng_with_seed};

fn build_pop(codes: Vec<&str>) -> Population {
    let keys: Vec<_> = codes.iter().map(|x| Binary::from_str(x)).collect();
    let mut fitness = Maximize;
    let indvs = OneMax.create(keys);
    Population::build(indvs, &mut fitness)
}

#[test]
fn test_cx_onepoint() {
    let mut rng = get_rng_with_seed(Some(11));

    let genomes: Vec<_> = vec!["10111", "01011"].iter().map(|s| Binary::from_str(s)).collect();

    let indvs = OneMax.create(genomes);
    let mut fitness = Maximize;
    let population = Population::build(indvs, &mut fitness);
    let parents = ElitistSelection::new(2).select_from(&population, &mut rng);
    for child in OnePointCrossOver.breed_from(&parents, &mut rng) {
        assert_eq!(child.len(), 5);
    }
}

#[test]
fn elitist_takes_the_best_in_order() {
    let pop = build_pop(vec!["10110", "01010", "11011", "00000", "11111"]);
    let mut rng = get_rng_with_seed(Some(3));
    let chosen = ElitistSelection::new(3).select_from(&pop, &mut rng);
    assert_eq!(chosen.len(), 3);
    let picks: Vec<String> = chosen.iter().map(|m| m.genome().to_string()).collect();
    assert_eq!(picks, vec!["11111", "11011", "10110"]);
    // descending fitness
    assert!(chosen[0].fitness_value() >= chosen[1].fitness_value());
    assert!(chosen[1].fitness_value() >= chosen[2].fitness_value());
}

#[test]
fn roulette_never_picks_zero_fitness() {
    // with Maximize the all-zero genome gets fitness 0 and must never come up
    let pop = build_pop(vec!["11111", "00000", "10000"]);
    let mut rng = get_rng_with_seed(Some(5));
    let chosen = RouletteWheelSelection::new(50).select_from(&pop, &mut rng);
    assert_eq!(chosen.len(), 50);
    for m in chosen.iter() {
        assert!(m.fitness_value() > 0);
        assert_ne!(m.genome().to_string(), "00000");
    }
}

#[test]
fn tournament_covers_every_part() {
    let pop = build_pop(vec!["10110", "01010", "11011", "00000", "11111", "00011"]);
    let mut rng = get_rng_with_seed(Some(9));
    // six members in parts of two: three winners
    let chosen = TournamentSelection::new(3).select_from(&pop, &mut rng);
    assert_eq!(chosen.len(), 3);
}

#[test]
fn tournament_returns_exactly_n_winners() {
    // three members split for n == 2 into parts of sizes two and one
    let pop = build_pop(vec!["10110", "01010", "11011"]);
    let mut rng = get_rng_with_seed(Some(41));
    let chosen = TournamentSelection::new(2).select_from(&pop, &mut rng);
    assert_eq!(chosen.len(), 2);
    // five members for n == 3: parts of sizes two, two and one
    let pop = build_pop(vec!["10110", "01010", "11011", "00000", "11111"]);
    let chosen = TournamentSelection::new(3).select_from(&pop, &mut rng);
    assert_eq!(chosen.len(), 3);
}

#[test]
fn sus_selects_the_asked_number() {
    let pop = build_pop(vec!["10110", "01010", "11011", "11100"]);
    let mut rng = get_rng_with_seed(Some(13));
    let chosen = StochasticUniversalSampling::new(6).select_from(&pop, &mut rng);
    assert_eq!(chosen.len(), 6);
}

#[test]
fn random_selection_draws_members() {
    let pop = build_pop(vec!["10110", "01010"]);
    let mut rng = get_rng_with_seed(Some(17));
    let chosen = RandomSelection::new(5).select_from(&pop, &mut rng);
    assert_eq!(chosen.len(), 5);
    for m in chosen.iter() {
        let g = m.genome().to_string();
        assert!(g == "10110" || g == "01010");
    }
}

#[test]
fn one_point_crossover_recombines() {
    let genomes = vec![Binary::from_str("11111"), Binary::from_str("00000")];
    let mut rng = get_rng_with_seed(Some(23));
    let children = OnePointCrossOver.crossover_binary(&genomes, &mut rng);
    assert_eq!(children.len(), 2);
    let a = children[0].to_string();
    let b = children[1].to_string();
    // exactly one position swapped between the two parents
    assert_eq!(a.chars().filter(|&c| c == '0').count(), 1);
    assert_eq!(b.chars().filter(|&c| c == '1').count(), 1);
    assert_eq!(
        a.chars().zip(b.chars()).filter(|(x, y)| x != y).count(),
        5
    );
}

#[test]
fn triadic_crossover_swaps_conserved_loci() {
    // sorted ascending by fitness: p0 = 00011 (2), p1 = 10011 (3), p2 = 11110 (4)
    let pop = build_pop(vec!["11110", "00011", "10011"]);
    let mut rng = get_rng_with_seed(Some(29));
    let members = pop.members();
    let children = TriadicCrossOver.crossover(&members, &mut rng);
    assert_eq!(children.len(), 2);
    // p0 and p1 agree at positions 1 through 4; the children swap p1 and p2
    // there, keeping their own bits at position 0
    let c: Vec<String> = children.iter().map(|g| g.to_string()).collect();
    assert!(c.contains(&"11110".to_string()));
    assert!(c.contains(&"10011".to_string()));
}

#[test]
fn flip_bit_mutation_changes_k_bits() {
    let pop = build_pop(vec!["00000000", "11111111"]);
    let mut rng = get_rng_with_seed(Some(31));
    let members = pop.members();
    let op = FlipBitMutation::new().mutation_size(2);
    let children = op.breed_from(&members, &mut rng);
    assert_eq!(children.len(), 2);
    for (child, parent) in children.iter().zip(members.iter()) {
        let p = parent.genome().to_string();
        let c = child.to_string();
        let differing = p.chars().zip(c.chars()).filter(|(x, y)| x != y).count();
        assert_eq!(differing, 2);
    }
}
