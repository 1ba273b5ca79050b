//! Individuals: a genome paired with its evaluated objective value.

use vstd::prelude::*;
use crate::encoding::Binary;

verus! {

/// Objective scores are kept within this bound, so that fitness arithmetic
/// on 64-bit values cannot overflow.
pub open spec fn score_ok(s: int) -> bool {
    -0x100_0000_0000 <= s <= 0x100_0000_0000
}

/// An evaluated genome. Immutable after construction: re-evaluation makes a
/// new individual.
pub struct Individual {
    genome: Binary,
    raw_score: i64,
}

pub ghost struct IndividualView {
    pub genome: Seq<bool>,
    pub raw_score: int,
}

impl View for Individual {
    type V = IndividualView;

    closed spec fn view(&self) -> IndividualView {
        IndividualView { genome: self.genome@, raw_score: self.raw_score as int }
    }
}

impl Clone for Individual {
    fn clone(&self) -> (r: Self)
        ensures
            r@ == self@,
    {
        Individual { genome: self.genome.clone(), raw_score: self.raw_score }
    }
}

/// Evaluates the objective value of a genome. Implementations must be
/// referentially transparent: the score is a function of the genome alone.
pub trait EvaluateObjectiveValue: Sized {
    /// The objective value that `evaluate` returns for a genome.
    spec fn spec_evaluate(&self, genome: Seq<bool>) -> int;

    /// The genomes this evaluator accepts (machine limits only).
    spec fn evaluable(&self, genome: Seq<bool>) -> bool;

    fn evaluate(&self, genome: &Binary) -> (r: i64)
        requires
            self.evaluable(genome@),
        ensures
            r as int == self.spec_evaluate(genome@),
            score_ok(r as int),
    ;
}

impl Individual {
    /// Create a new individual by scoring a genome with `func`.
    pub fn new<E: EvaluateObjectiveValue>(genome: Binary, func: &mut E) -> (r: Self)
        requires
            old(func).evaluable(genome@),
        ensures
            r@.genome == genome@,
            r@.raw_score == old(func).spec_evaluate(genome@),
            score_ok(r@.raw_score),
            *final(func) == *old(func),
    {
        let raw_score = func.evaluate(&genome);
        Individual { genome, raw_score }
    }

    /// The genome of this individual.
    pub fn genome(&self) -> (g: &Binary)
        ensures
            g@ == self@.genome,
    {
        &self.genome
    }

    /// The evaluated objective value of this individual.
    pub fn objective_value(&self) -> (r: i64)
        ensures
            r as int == self@.raw_score,
    {
        self.raw_score
    }
}

/// The objective scores of a list of individuals, in order.
pub open spec fn scores_of(indvs: Seq<Individual>) -> Seq<int> {
    Seq::new(indvs.len(), |i: int| indvs[i]@.raw_score)
}

/// All scores in a list of individuals lie within the safe range.
pub open spec fn indvs_scores_ok(indvs: Seq<Individual>) -> bool {
    forall|i: int| 0 <= i < indvs.len() ==> score_ok(#[trigger] indvs[i]@.raw_score)
}

/// Every individual's score is the evaluator's score for its genome: the
/// list was scored truthfully, with no stale or foreign values.
pub open spec fn truthfully_scored<C: EvaluateObjectiveValue>(indvs: Seq<Individual>, c: C) -> bool {
    forall|i: int|
        0 <= i < indvs.len() ==> #[trigger] indvs[i]@.raw_score == c.spec_evaluate(
            indvs[i]@.genome,
        )
}

/// Every genome in the list is carried by some individual in `out`.
#[verifier::opaque]
pub open spec fn genomes_covered(genomes: Seq<Binary>, upto: int, out: Seq<Individual>) -> bool {
    forall|u: int|
        0 <= u < upto ==> (exists|i: int|
            0 <= i < out.len() && #[trigger] genomes[u]@ == out[i]@.genome)
}

/// Every individual in `out` carries one of the listed genomes.
#[verifier::opaque]
pub open spec fn individuals_from(genomes: Seq<Binary>, upto: int, out: Seq<Individual>) -> bool {
    forall|i: int|
        0 <= i < out.len() ==> (exists|u: int|
            0 <= u < upto && genomes[u]@ == #[trigger] out[i]@.genome)
}

/// Creating new individuals from genomes: deduplicate, then evaluate each
/// distinct genome once.
pub trait Create: EvaluateObjectiveValue {
    fn create(&self, genomes: Vec<Binary>) -> (r: Vec<Individual>)
        requires
            forall|t: int| 0 <= t < genomes@.len() ==> self.evaluable(#[trigger] genomes@[t]@),
        ensures
            r@.len() <= genomes@.len(),
            genomes@.len() > 0 ==> r@.len() > 0,
            // no genome is evaluated twice
            forall|i: int, j: int|
                0 <= i < j < r@.len() ==> r@[i]@.genome != r@[j]@.genome,
            // every individual carries one of the given genomes, rightly scored
            individuals_from(genomes@, genomes@.len() as int, r@),
            forall|i: int|
                0 <= i < r@.len() ==> #[trigger] r@[i]@.raw_score == self.spec_evaluate(
                    r@[i]@.genome,
                ) && score_ok(r@[i]@.raw_score),
            // every given genome is represented
            genomes_covered(genomes@, genomes@.len() as int, r@),
    ;
}

impl<E: EvaluateObjectiveValue> Create for E {
    #[verifier::rlimit(50)]
    fn create(&self, genomes: Vec<Binary>) -> (r: Vec<Individual>) {
        let mut out: Vec<Individual> = Vec::new();
        let n = genomes.len();
        let mut t: usize = 0;
        proof {
            assert(genomes_covered(genomes@, 0, out@)) by {
                reveal(genomes_covered);
            }
            assert(individuals_from(genomes@, 0, out@)) by {
                reveal(individuals_from);
            }
        }
        while t < n
            invariant
                t <= n,
                n == genomes@.len(),
                forall|u: int| 0 <= u < n ==> self.evaluable(#[trigger] genomes@[u]@),
                out@.len() <= t,
                t > 0 ==> out@.len() > 0,
                forall|i: int, j: int|
                    0 <= i < j < out@.len() ==> out@[i]@.genome != out@[j]@.genome,
                individuals_from(genomes@, t as int, out@),
                forall|i: int|
                    0 <= i < out@.len() ==> #[trigger] out@[i]@.raw_score == self.spec_evaluate(
                        out@[i]@.genome,
                    ) && score_ok(out@[i]@.raw_score),
                genomes_covered(genomes@, t as int, out@),
            decreases n - t,
        {
            let g = genomes[t].clone();
            let mut seen = false;
            let m = out.len();
            let mut i: usize = 0;
            while i < m
                invariant
                    i <= m,
                    t < n,
                    n == genomes@.len(),
                    m == out@.len(),
                    g@ == genomes@[t as int]@,
                    seen == exists|k: int| 0 <= k < i && out@[k]@.genome == g@,
                decreases m - i,
            {
                let same = out[i].genome() == &g;
                proof {
                    if same {
                        assert(out@[i as int]@.genome =~= g@);
                        assert(out@[i as int]@.genome == g@);
                    } else {
                        assert(out@[i as int]@.genome != g@) by {
                            if out@[i as int]@.genome == g@ {
                                assert(out@[i as int]@.genome =~= g@);
                            }
                        }
                    }
                }
                if same {
                    seen = true;
                }
                i = i + 1;
            }
            let ghost out0 = out@;
            if !seen {
                let score = self.evaluate(&g);
                out.push(Individual { genome: g, raw_score: score });
            }
            proof {
                if seen {
                    let k = choose|k: int| 0 <= k < m && out@[k]@.genome == g@;
                    assert(out@[k]@.genome == genomes@[t as int]@);
                } else {
                    assert(out@ == out0.push(out@[out0.len() as int]));
                    assert(out@[out@.len() - 1]@.genome == genomes@[t as int]@);
                }
                assert(genomes_covered(genomes@, t + 1, out@)) by {
                    reveal(genomes_covered);
                    assert forall|u: int| 0 <= u < t + 1 implies (exists|i: int|
                        0 <= i < out@.len() && #[trigger] genomes@[u]@ == out@[i]@.genome) by {
                        if u < t {
                            let i = choose|i: int|
                                0 <= i < out0.len() && genomes@[u]@ == out0[i]@.genome;
                            assert(out@[i]@.genome == genomes@[u]@);
                        } else if seen {
                            let k = choose|k: int| 0 <= k < m && out@[k]@.genome == g@;
                            assert(genomes@[u]@ == out@[k]@.genome);
                        } else {
                            assert(genomes@[u]@ == out@[out@.len() - 1]@.genome);
                        }
                    }
                }
                assert(individuals_from(genomes@, t + 1, out@)) by {
                    reveal(individuals_from);
                    assert forall|i: int| 0 <= i < out@.len() implies (exists|u: int|
                        0 <= u < t + 1 && genomes@[u]@ == #[trigger] out@[i]@.genome) by {
                        if i < out0.len() {
                            let u = choose|u: int| 0 <= u < t && genomes@[u]@ == out0[i]@.genome;
                            assert(genomes@[u]@ == out@[i]@.genome);
                        } else {
                            assert(genomes@[t as int]@ == out@[i]@.genome);
                        }
                    }
                }
            }
            t = t + 1;
        }
        out
    }
}

/// Counts the set bits of a genome.
pub open spec fn count_ones(s: Seq<bool>) -> int
    decreases s.len(),
{
    if s.len() == 0 {
        0
    } else {
        count_ones(s.drop_last()) + (if s.last() {
            1int
        } else {
            0int
        })
    }
}

/// The "count the set bits" objective for bit-string genomes.
pub struct OneMax;

impl EvaluateObjectiveValue for OneMax {
    open spec fn spec_evaluate(&self, genome: Seq<bool>) -> int {
        count_ones(genome)
    }

    open spec fn evaluable(&self, genome: Seq<bool>) -> bool {
        genome.len() <= 0x100_0000_0000
    }

    fn evaluate(&self, genome: &Binary) -> (r: i64) {
        let n = genome.len();
        let mut acc: i64 = 0;
        let mut i: usize = 0;
        proof {
            assert(genome@.take(0) =~= Seq::<bool>::empty());
        }
        while i < n
            invariant
                i <= n,
                n == genome@.len(),
                n <= 0x100_0000_0000,
                acc as int == count_ones(genome@.take(i as int)),
                0 <= acc as int <= i,
            decreases n - i,
        {
            proof {
                assert(genome@.take(i + 1).drop_last() =~= genome@.take(i as int));
            }
            if genome.get(i) {
                acc = acc + 1;
            }
            i = i + 1;
        }
        proof {
            assert(genome@.take(n as int) =~= genome@);
        }
        acc
    }
}

} // verus!
