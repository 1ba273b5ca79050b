//! Gears: the composed pieces the evolution engine turns each generation.

use vstd::prelude::*;
use crate::encoding::Binary;
use crate::individual::Individual;
use crate::population::Population;

verus! {

/// Every individual of the population carries a genome of length `len`.
pub open spec fn pop_uniform_len(p: &Population, len: int) -> bool {
    forall|i: int|
        0 <= i < p.spec_individuals().len() ==> #[trigger] p.spec_individuals()[i]@.genome.len()
            == len
}

/// Members that share a genome share a fitness value (true of every fitness
/// policy that scores genomes through their objective values alone).
pub open spec fn genome_determines_fitness(p: &Population) -> bool {
    forall|i: int, j: int|
        0 <= i < p.spec_individuals().len() && 0 <= j < p.spec_individuals().len()
            && #[trigger] p.spec_individuals()[i]@.genome == #[trigger] p.spec_individuals()[j]@.genome
            ==> p.spec_fitness_values()[i] == p.spec_fitness_values()[j]
}

/// Breed `n` new genomes (not yet evaluated) from a parent population.
pub trait Breed: Sized {
    /// When this breeder may be applied to a population.
    spec fn breed_ok(&self, p: &Population) -> bool;

    /// Breed at least `n` new genomes; children keep the parents' genome
    /// length where that length is uniform across the population.
    fn breed(&mut self, n: usize, population: &Population, rng: &mut rand::rngs::StdRng) -> (r:
        Vec<Binary>)
        requires
            population.wf(),
            old(self).breed_ok(population),
        ensures
            r@.len() >= n,
            forall|len: int|
                pop_uniform_len(population, len) ==> (forall|i: int|
                    0 <= i < r@.len() ==> #[trigger] r@[i]@.len() == len),
    ;
}

/// Member supplanting: keep the fittest individuals, up to the population's
/// size limit.
pub trait Survive: Sized {
    /// Keep at most `size_limit` individuals, all of them individuals the
    /// population already held; where one genome can carry only one fitness
    /// value, an individual of the largest fitness survives.
    fn survive(&mut self, population: Population, rng: &mut rand::rngs::StdRng) -> (r: Vec<
        Individual,
    >)
        requires
            population.wf(),
        ensures
            r@.len() <= population.spec_size_limit(),
            population.spec_individuals().len() >= 1 && population.spec_size_limit() >= 1
                ==> r@.len() >= 1,
            forall|i: int|
                0 <= i < r@.len() ==> (exists|j: int|
                    0 <= j < population.spec_individuals().len() && #[trigger] r@[i]@
                        == population.spec_individuals()[j]@),
            (population.spec_individuals().len() >= 1 && population.spec_size_limit() >= 1
                && genome_determines_fitness(&population)) ==> (exists|i: int, j: int|
                0 <= i < r@.len() && 0 <= j < population.spec_individuals().len() && r@[i]@
                    == population.spec_individuals()[j]@ && population.spec_fitness_values()[j]
                    == crate::fitness::seq_max(population.spec_fitness_values())),
    ;
}

mod breeder;
mod survivor;
mod valuer;

pub use self::breeder::GeneticBreeder;
pub use self::survivor::Survivor;
pub use self::valuer::Valuer;

} // verus!
