use spdkit::{Binary, Population};
use spdkit::fitness::{Maximize, Minimize};
use spdkit::individual::OneMax;
use spdkit::prelude::{Create, EvaluateFitness, SortMember};

fn build_pop(codes: Vec<&str>) -> Population {
    let keys: Vec<_> = codes.iter().map(|x| Binary::from_str(x)).collect();
    let mut fitness = Maximize;
    let indvs = OneMax.create(keys);
    Population::build(indvs, &mut fitness)
}

#[test]
fn population_test() {
    let keys: Vec<_> = vec!["10110", "01010", "11011"].iter().map(|x| Binary::from_str(x)).collect();

    let mut fitness = Maximize;
    let indvs = OneMax.create(keys);
    let pop = Population::build(indvs, &mut fitness).with_size_limit(10);

    assert!(!pop.is_oversized());

    let mut members: Vec<_> = pop.members();
    members.sort_by_fitness();

    let m = pop.best_member().unwrap();
    assert_eq!(m.genome().to_string(), "11011");
}

#[test]
fn maximize_fitness_values() {
    let keys: Vec<_> = vec!["111", "100", "000"].iter().map(|x| Binary::from_str(x)).collect();
    let indvs = OneMax.create(keys);
    let mut fitness = Maximize;
    let values = fitness.evaluate(&indvs);
    // objective values are 3, 1, 0; the worst receives fitness zero
    let objectives: Vec<i64> = indvs.iter().map(|i| i.objective_value()).collect();
    let min = *objectives.iter().min().unwrap();
    for (v, o) in values.iter().zip(objectives.iter()) {
        assert_eq!(*v, o - min);
        assert!(*v >= 0);
    }
    assert!(values.contains(&0));
}

#[test]
fn minimize_fitness_values() {
    let keys: Vec<_> = vec!["111", "100", "000"].iter().map(|x| Binary::from_str(x)).collect();
    let indvs = OneMax.create(keys);
    let mut fitness = Minimize;
    let values = fitness.evaluate(&indvs);
    // the largest objective value receives fitness zero, smaller ones more
    let objectives: Vec<i64> = indvs.iter().map(|i| i.objective_value()).collect();
    let max = *objectives.iter().max().unwrap();
    for (v, o) in values.iter().zip(objectives.iter()) {
        assert_eq!(*v, max - o);
        assert!(*v >= 0);
    }
    assert!(values.contains(&0));
}

#[test]
fn empty_individual_list_gives_empty_fitness() {
    let mut fitness = Maximize;
    let values = fitness.evaluate(&Vec::new());
    assert!(values.is_empty());
}

#[test]
fn survive_prunes_to_limit_and_keeps_best() {
    let pop = build_pop(vec!["10110", "01010", "11011", "00000", "11111"]);
    let mut pop = pop.with_size_limit(2);
    assert!(pop.is_oversized());
    let removed = pop.survive();
    assert_eq!(removed, 3);
    assert_eq!(pop.size(), 2);
    assert!(!pop.is_oversized());
    // the fittest genome survives in front
    let genomes: Vec<String> = pop.individuals().iter().map(|i| i.genome().to_string()).collect();
    assert_eq!(genomes[0], "11111");
    // every survivor was present before
    for g in genomes.iter() {
        assert!(["10110", "01010", "11011", "00000", "11111"].contains(&g.as_str()));
    }
}

#[test]
fn survive_without_oversize_changes_nothing() {
    let mut pop = build_pop(vec!["10110", "01010"]).with_size_limit(5);
    let removed = pop.survive();
    assert_eq!(removed, 0);
    assert_eq!(pop.size(), 2);
}

#[test]
fn create_removes_duplicates() {
    let keys: Vec<_> = vec!["101", "101", "010"].iter().map(|x| Binary::from_str(x)).collect();
    let indvs = OneMax.create(keys);
    assert_eq!(indvs.len(), 2);
}
