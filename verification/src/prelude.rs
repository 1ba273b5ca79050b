//! The traits a user of the engine implements or calls through.

pub use crate::encoding::Mutate;
pub use crate::engine::Evolve;
pub use crate::fitness::EvaluateFitness;
pub use crate::gears::Breed;
pub use crate::gears::Survive;
pub use crate::individual::Create;
pub use crate::individual::EvaluateObjectiveValue;
pub use crate::operators::GeneticOperator;
pub use crate::operators::SelectionOperator;
pub use crate::operators::VariationOperator;
pub use crate::population::SortMember;
pub use crate::random::get_rng_with_seed;
pub use crate::termination::Terminate;
