//! Run-wide settings, fed in by the embedding program.

use vstd::prelude::*;

verus! {

/// Settings read from the process environment by the embedding program: an
/// optional seed for the random source, for reproducible runs.
#[derive(Clone, Debug)]
pub struct Vars {
    pub random_seed: Option<u64>,
}

impl Vars {
    /// Settings with the given seed, or none.
    pub fn new(random_seed: Option<u64>) -> (r: Self)
        ensures
            r.random_seed == random_seed,
    {
        Vars { random_seed }
    }
}

} // verus!
