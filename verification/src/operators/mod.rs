//! Pluggable genetic operators: selection and variation.

use vstd::prelude::*;
use crate::encoding::Binary;
use crate::population::{Population, Member};

verus! {

/// A genetic operator can be cloned into a running loop.
pub trait GeneticOperator: Clone {

}

impl<T: Clone> GeneticOperator for T {

}

/// All members carry genomes of one length.
pub open spec fn members_uniform_len(ms: Seq<Member>, len: int) -> bool {
    forall|i: int| 0 <= i < ms.len() ==> #[trigger] ms[i]@.individual.genome.len() == len
}

/// Selecting parent members from a population.
pub trait SelectionOperator: Sized {
    /// When this operator may be applied to a population.
    spec fn sel_ok(&self, p: &Population) -> bool;

    /// How many members one call selects.
    spec fn sel_count(&self, p: &Population) -> int;

    /// Select members from the population. Every selected member is a
    /// member of the population; the same member may appear repeatedly
    /// where the strategy allows it.
    fn select_from(&self, population: &Population, rng: &mut rand::rngs::StdRng) -> (r: Vec<
        Member,
    >)
        requires
            population.wf(),
            self.sel_ok(population),
        ensures
            r@.len() == self.sel_count(population),
            forall|i: int|
                0 <= i < r@.len() ==> population.spec_has_member(#[trigger] r@[i]@),
    ;
}

/// Producing new genomes from selected parent members.
pub trait VariationOperator: Sized {
    /// When this operator may be applied to a list of parents.
    spec fn var_ok(&self, parents: Seq<Member>) -> bool;

    /// What this operator's output looks like for given parents: each
    /// implementation pins its `breed_from` result down with this relation.
    spec fn breeds(&self, parents: Seq<Member>, out: Seq<Binary>) -> bool;

    /// Create genomes for new individuals from the selected parents. At
    /// least one child is bred, children keep the parents' genome length
    /// where that length is uniform, and the output stands in the
    /// operator's breeding relation to the parents.
    fn breed_from(&self, parents: &Vec<Member>, rng: &mut rand::rngs::StdRng) -> (r: Vec<Binary>)
        requires
            self.var_ok(parents@),
        ensures
            r@.len() >= 1,
            forall|len: int|
                members_uniform_len(parents@, len) ==> (forall|i: int|
                    0 <= i < r@.len() ==> #[trigger] r@[i]@.len() == len),
            self.breeds(parents@, r@),
    ;
}

pub mod replacement;
pub mod selection;
pub mod variation;

} // verus!
