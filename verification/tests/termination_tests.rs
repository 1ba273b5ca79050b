use spdkit::{Binary, Population};
use spdkit::fitness::Maximize;
use spdkit::individual::OneMax;
use spdkit::prelude::{Create, Terminate};
use spdkit::termination::{Generation, RunningMean};

/// A one-member population whose best objective value is `ones`.
fn gen_with_best(index: usize, ones: usize) -> Generation {
    let genome: String = (0..8).map(|i| if i < ones { '1' } else { '0' }).collect();
    let keys = vec![Binary::from_str(&genome)];
    let indvs = OneMax.create(keys);
    let mut fitness = Maximize;
    let population = Population::build(indvs, &mut fitness);
    Generation { index, population }
}

#[test]
fn running_mean_scenario() {
    let mut term = RunningMean::new(3);

    // a strictly improving sequence of best objective values never signals
    let mut index = 0;
    for ones in [1usize, 2, 3, 4, 5, 6, 7] {
        let g = gen_with_best(index, ones);
        assert!(!term.meets(&g));
        index += 1;
    }
    // the window now holds 5, 6, 7; identical best values from here on
    assert!(!term.meets(&gen_with_best(index, 7))); // window 6, 7, 7
    index += 1;
    assert!(!term.meets(&gen_with_best(index, 7))); // window 7, 7, 7
    index += 1;
    // the mean equals the best exactly: stagnation is signalled
    assert!(term.meets(&gen_with_best(index, 7)));
}

#[test]
fn best_individual_is_reported() {
    let g = gen_with_best(0, 5);
    let best = g.best_individual();
    assert_eq!(best.objective_value(), 5);
}
