//! An evolutionary-optimization engine over bit-string genomes.
//!
//! A population of evaluated individuals is repeatedly bred (selection +
//! variation), re-scored, and pruned back to a fixed size limit, until a
//! running-mean convergence criterion fires.

pub mod encoding;
pub mod engine;
pub mod fitness;
pub mod gears;
pub mod graph6;
pub mod individual;
pub mod operators;
pub mod population;
pub mod prelude;
pub mod random;
pub mod termination;
pub mod vars;

pub use crate::encoding::Binary;
pub use crate::engine::{Engine, EvolutionAlgorithm};
pub use crate::gears::{GeneticBreeder, Survivor, Valuer};
pub use crate::individual::Individual;
pub use crate::population::Population;
