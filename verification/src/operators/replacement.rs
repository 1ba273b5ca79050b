//! Replacement operators.

use vstd::prelude::*;

verus! {

/// Replace all bad performing individuals in a population with feasible
/// candidates. In this engine, survival pruning does that work, so the
/// strategy carries no state of its own.
#[derive(Clone)]
pub struct FullReplacement;

} // verus!
