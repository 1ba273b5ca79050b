//! The random source, and the trusted boundary around the `rand` crate.
//!
//! Every operator that needs randomness takes an explicitly passed
//! `rand::rngs::StdRng`, so runs are reproducible by seeding.

use vstd::prelude::*;
use rand::Rng;
use rand::SeedableRng;
use rand::seq::SliceRandom;

verus! {

#[verifier::external_type_specification]
#[verifier::external_body]
pub struct ExStdRng(rand::rngs::StdRng);

/// Relies on rand::random::<u64>: an arbitrary word from the thread-local
/// generator; nothing is promised of its value.
#[verifier::external_body]
pub fn random_seed_u64() -> u64 {
    rand::random::<u64>()
}

/// Relies on rand_core::SeedableRng::seed_from_u64: a generator in the state
/// that the seed determines.
#[verifier::external_body]
pub fn rng_from_seed(seed: u64) -> rand::rngs::StdRng {
    rand::rngs::StdRng::seed_from_u64(seed)
}

/// A generator from the given seed, or from an arbitrary one.
pub fn get_rng_with_seed(seed: Option<u64>) -> rand::rngs::StdRng {
    match seed {
        Option::Some(s) => rng_from_seed(s),
        Option::None => {
            let s = random_seed_u64();
            rng_from_seed(s)
        },
    }
}

/// Relies on rand::Rng::gen_range over `0..n`: a value below `n`; the range
/// must not be empty.
#[verifier::external_body]
pub(crate) fn rand_below(rng: &mut rand::rngs::StdRng, n: usize) -> (r: usize)
    requires
        n > 0,
    ensures
        r < n,
{
    rng.gen_range(0..n)
}

/// Relies on rand::Rng::gen_range over `0..n`: a value below `n`; the range
/// must not be empty.
#[verifier::external_body]
pub(crate) fn rand_below_i128(rng: &mut rand::rngs::StdRng, n: i128) -> (r: i128)
    requires
        n > 0,
    ensures
        0 <= r < n,
{
    rng.gen_range(0..n)
}

/// Relies on rand::seq::SliceRandom::shuffle: a Fisher-Yates permutation of
/// the slice in place.
#[verifier::external_body]
pub(crate) fn shuffle_vec<T>(rng: &mut rand::rngs::StdRng, v: &mut Vec<T>)
    ensures
        final(v)@.to_multiset() == old(v)@.to_multiset(),
{
    v.shuffle(rng);
}

/// Relies on rand::seq::SliceRandom::choose_multiple: `min(amount, len)`
/// elements sampled without repetition (no slice position is taken twice).
#[verifier::external_body]
pub(crate) fn choose_multiple_usize(
    rng: &mut rand::rngs::StdRng,
    from: &Vec<usize>,
    amount: usize,
) -> (r: Vec<usize>)
    ensures
        r@.len() == if amount <= from@.len() {
            amount as int
        } else {
            from@.len() as int
        },
        forall|i: int| 0 <= i < r@.len() ==> from@.contains(#[trigger] r@[i]),
        (forall|i: int, j: int| 0 <= i < j < from@.len() ==> from@[i] != from@[j]) ==> (forall|
            i: int,
            j: int,
        |
            0 <= i < j < r@.len() ==> r@[i] != r@[j]),
{
    from.choose_multiple(rng, amount).cloned().collect()
}

} // verus!
