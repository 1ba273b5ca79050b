//! The valuer: creates individuals from genomes and builds populations.

use vstd::prelude::*;
use crate::encoding::Binary;
use crate::individual::{
    Individual,
    EvaluateObjectiveValue,
    Create,
    scores_of,
    score_ok,
    genomes_covered,
    individuals_from,
};
use crate::fitness::EvaluateFitness;
use crate::population::Population;

verus! {

/// Pairs an objective-value evaluator (the expensive step) with a fitness
/// policy, so the engine can turn genomes into a scored population.
pub struct Valuer<F: EvaluateFitness, C: EvaluateObjectiveValue> {
    fitness: Option<F>,
    creator: Option<C>,
}

impl<F: EvaluateFitness, C: EvaluateObjectiveValue> Valuer<F, C> {
    /// The fitness policy, for specifications.
    pub closed spec fn spec_fitness_policy(&self) -> Option<F> {
        self.fitness
    }

    /// The objective-value evaluator, for specifications.
    pub closed spec fn spec_creator(&self) -> Option<C> {
        self.creator
    }

    /// Both collaborators are set.
    pub open spec fn wf(&self) -> bool {
        self.spec_fitness_policy() is Some && self.spec_creator() is Some
    }

    /// An empty valuer; set a fitness policy and a creator before use.
    pub fn new() -> (r: Self)
        ensures
            r.spec_fitness_policy() is None,
            r.spec_creator() is None,
    {
        Valuer { fitness: Option::None, creator: Option::None }
    }

    /// Set the fitness evaluator used for building populations.
    pub fn with_fitness(self, f: F) -> (r: Self)
        ensures
            r.spec_fitness_policy() == Option::Some(f),
            r.spec_creator() == self.spec_creator(),
    {
        Valuer { fitness: Option::Some(f), ..self }
    }

    /// Set the evaluator of objective values used for creating individuals.
    pub fn with_creator(self, c: C) -> (r: Self)
        ensures
            r.spec_creator() == Option::Some(c),
            r.spec_fitness_policy() == self.spec_fitness_policy(),
    {
        Valuer { creator: Option::Some(c), ..self }
    }

    /// Create individuals from genomes: deduplicate, then evaluate each
    /// distinct genome once.
    pub fn create_individuals(&self, genomes: Vec<Binary>) -> (r: Vec<Individual>)
        requires
            self.wf(),
            forall|t: int|
                0 <= t < genomes@.len() ==> self.spec_creator()->0.evaluable(
                    #[trigger] genomes@[t]@,
                ),
        ensures
            r@.len() <= genomes@.len(),
            genomes@.len() > 0 ==> r@.len() > 0,
            forall|i: int, j: int| 0 <= i < j < r@.len() ==> r@[i]@.genome != r@[j]@.genome,
            individuals_from(genomes@, genomes@.len() as int, r@),
            genomes_covered(genomes@, genomes@.len() as int, r@),
            forall|i: int|
                0 <= i < r@.len() ==> #[trigger] r@[i]@.raw_score
                    == self.spec_creator()->0.spec_evaluate(r@[i]@.genome) && score_ok(
                    r@[i]@.raw_score,
                ),
    {
        match &self.creator {
            Option::Some(c) => c.create(genomes),
            Option::None => vstd::pervasive::unreached(),
        }
    }

    /// Build a population from individuals; the size limit is set to their
    /// number.
    pub fn build_population(&mut self, indvs: Vec<Individual>) -> (r: Population)
        requires
            old(self).wf(),
            old(self).spec_fitness_policy()->0.fit_ok(scores_of(indvs@)),
        ensures
            final(self).wf(),
            final(self).spec_creator() == old(self).spec_creator(),
            final(self).spec_fitness_policy() is Some,
            r.wf(),
            r.spec_individuals() == indvs@,
            r.spec_size_limit() == indvs@.len(),
            r.spec_fitness_values() =~= old(self).spec_fitness_policy()->0.spec_fitness(
                scores_of(indvs@),
            ),
            forall|s: Seq<int>|
                #[trigger] final(self).spec_fitness_policy()->0.fit_ok(s) == old(
                    self,
                ).spec_fitness_policy()->0.fit_ok(s),
            forall|a: int, b: int|
                #[trigger] final(self).spec_fitness_policy()->0.prefers(a, b) == old(
                    self,
                ).spec_fitness_policy()->0.prefers(a, b),
    {
        match &mut self.fitness {
            Option::Some(f) => Population::build(indvs, f),
            Option::None => vstd::pervasive::unreached(),
        }
    }
}

} // verus!
