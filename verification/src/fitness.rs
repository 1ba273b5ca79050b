//! Fitness shaping: mapping objective values to comparison-friendly scores.
//!
//! A larger fitness always means a preferred individual. The energy-style
//! Boltzmann rescaling lives outside the library: it is floating-point
//! arithmetic through and through.

use vstd::prelude::*;
use crate::individual::{Individual, score_ok, scores_of};

verus! {

/// The sum of a sequence of values.
pub open spec fn seq_sum(s: Seq<int>) -> int
    decreases s.len(),
{
    if s.len() == 0 {
        0
    } else {
        seq_sum(s.drop_last()) + s.last()
    }
}

/// For sequences of nonnegative values, the sum is nonnegative, and every
/// prefix sum is at most the whole sum.
pub proof fn lemma_seq_sum_nonneg(s: Seq<int>)
    requires
        forall|i: int| 0 <= i < s.len() ==> s[i] >= 0,
    ensures
        seq_sum(s) >= 0,
        forall|k: int| 0 <= k <= s.len() ==> seq_sum(#[trigger] s.take(k)) <= seq_sum(s),
        forall|i: int| 0 <= i < s.len() ==> #[trigger] s[i] <= seq_sum(s),
    decreases s.len(),
{
    if s.len() == 0 {
        assert forall|k: int| 0 <= k <= s.len() implies seq_sum(#[trigger] s.take(k)) <= seq_sum(
            s,
        ) by {
            assert(s.take(k) =~= s);
        }
    } else {
        let d = s.drop_last();
        lemma_seq_sum_nonneg(d);
        assert forall|k: int| 0 <= k <= s.len() implies seq_sum(#[trigger] s.take(k)) <= seq_sum(
            s,
        ) by {
            if k == s.len() {
                assert(s.take(k) =~= s);
            } else {
                assert(s.take(k) =~= d.take(k));
            }
        }
        assert forall|i: int| 0 <= i < s.len() implies #[trigger] s[i] <= seq_sum(s) by {
            if i < s.len() - 1 {
                assert(d[i] == s[i]);
            }
        }
    }
}

/// For sequences of values bounded by `b`, the sum is at most `len * b`.
pub proof fn lemma_seq_sum_upper(s: Seq<int>, b: int)
    requires
        forall|i: int| 0 <= i < s.len() ==> #[trigger] s[i] <= b,
        b >= 0,
    ensures
        seq_sum(s) <= s.len() * b,
    decreases s.len(),
{
    if s.len() > 0 {
        lemma_seq_sum_upper(s.drop_last(), b);
        assert((s.len() - 1) * b + b == s.len() * b) by (nonlinear_arith);
    }
}

/// A nonnegative sequence with a positive sum holds a positive value.
pub proof fn lemma_seq_sum_pos_element(s: Seq<int>)
    requires
        forall|i: int| 0 <= i < s.len() ==> s[i] >= 0,
        seq_sum(s) > 0,
    ensures
        exists|i: int| 0 <= i < s.len() && s[i] > 0,
    decreases s.len(),
{
    if s.last() > 0 {
        assert(s[s.len() - 1] > 0);
    } else {
        let d = s.drop_last();
        lemma_seq_sum_pos_element(d);
        let i = choose|i: int| 0 <= i < d.len() && d[i] > 0;
        assert(s[i] > 0);
    }
}

/// The smallest value of a non-empty sequence.
pub open spec fn seq_min(s: Seq<int>) -> int
    decreases s.len(),
{
    if s.len() <= 1 {
        s[0]
    } else {
        let m = seq_min(s.drop_last());
        if s.last() < m {
            s.last()
        } else {
            m
        }
    }
}

/// The largest value of a non-empty sequence.
pub open spec fn seq_max(s: Seq<int>) -> int
    decreases s.len(),
{
    if s.len() <= 1 {
        s[0]
    } else {
        let m = seq_max(s.drop_last());
        if s.last() > m {
            s.last()
        } else {
            m
        }
    }
}

pub proof fn lemma_seq_min(s: Seq<int>)
    requires
        s.len() > 0,
    ensures
        forall|i: int| 0 <= i < s.len() ==> seq_min(s) <= #[trigger] s[i],
        exists|i: int| 0 <= i < s.len() && #[trigger] s[i] == seq_min(s),
    decreases s.len(),
{
    if s.len() == 1 {
        assert(s[0] == seq_min(s));
    } else {
        lemma_seq_min(s.drop_last());
        let m = seq_min(s.drop_last());
        if s.last() < m {
            assert(s[s.len() - 1] == seq_min(s));
        } else {
            let i = choose|i: int| 0 <= i < s.len() - 1 && #[trigger] s.drop_last()[i] == m;
            assert(s[i] == seq_min(s));
        }
        assert forall|i: int| 0 <= i < s.len() implies seq_min(s) <= #[trigger] s[i] by {
            if i < s.len() - 1 {
                assert(s.drop_last()[i] == s[i]);
            }
        }
    }
}

pub proof fn lemma_seq_max(s: Seq<int>)
    requires
        s.len() > 0,
    ensures
        forall|i: int| 0 <= i < s.len() ==> #[trigger] s[i] <= seq_max(s),
        exists|i: int| 0 <= i < s.len() && #[trigger] s[i] == seq_max(s),
    decreases s.len(),
{
    if s.len() == 1 {
        assert(s[0] == seq_max(s));
    } else {
        lemma_seq_max(s.drop_last());
        let m = seq_max(s.drop_last());
        if s.last() > m {
            assert(s[s.len() - 1] == seq_max(s));
        } else {
            let i = choose|i: int| 0 <= i < s.len() - 1 && #[trigger] s.drop_last()[i] == m;
            assert(s[i] == seq_max(s));
        }
        assert forall|i: int| 0 <= i < s.len() implies #[trigger] s[i] <= seq_max(s) by {
            if i < s.len() - 1 {
                assert(s.drop_last()[i] == s[i]);
            }
        }
    }
}

/// All values of a score sequence lie within the safe range.
pub open spec fn seq_scores_ok(scores: Seq<int>) -> bool {
    forall|i: int| 0 <= i < scores.len() ==> score_ok(#[trigger] scores[i])
}

/// Maps the objective values of a population to fitness values, one per
/// individual, in order; a strictly larger fitness marks a preferred
/// individual.
pub trait EvaluateFitness: Sized {
    /// The fitness values this policy assigns to a list of objective scores.
    spec fn spec_fitness(&self, scores: Seq<int>) -> Seq<int>;

    /// Whether objective value `a` is at least as preferred as `b`.
    spec fn prefers(&self, a: int, b: int) -> bool;

    /// The score lists this policy accepts (machine limits only).
    spec fn fit_ok(&self, scores: Seq<int>) -> bool;

    /// One fitness value per score.
    proof fn lemma_fitness_len(&self, scores: Seq<int>)
        ensures
            self.spec_fitness(scores).len() == scores.len(),
    ;

    /// Fitness order agrees with the preference order on objective values.
    proof fn lemma_fitness_consistent(&self, scores: Seq<int>, i: int, j: int)
        requires
            self.fit_ok(scores),
            0 <= i < scores.len(),
            0 <= j < scores.len(),
        ensures
            self.spec_fitness(scores)[i] >= self.spec_fitness(scores)[j] <==> self.prefers(
                scores[i],
                scores[j],
            ),
    ;

    /// Preference is a total preorder.
    proof fn lemma_prefers_total(&self, a: int, b: int, c: int)
        ensures
            self.prefers(a, a),
            self.prefers(a, b) || self.prefers(b, a),
            self.prefers(a, b) && self.prefers(b, c) ==> self.prefers(a, c),
    ;

    fn evaluate(&mut self, indvs: &Vec<Individual>) -> (r: Vec<i64>)
        requires
            old(self).fit_ok(scores_of(indvs@)),
        ensures
            r@.len() == indvs@.len(),
            forall|i: int|
                0 <= i < r@.len() ==> #[trigger] r@[i] as int == old(self).spec_fitness(
                    scores_of(indvs@),
                )[i],
            // evaluating may advance internal state (an annealing schedule),
            // but never changes which score lists the policy accepts, nor
            // which objective values it prefers
            forall|s: Seq<int>| #[trigger] final(self).fit_ok(s) == old(self).fit_ok(s),
            forall|a: int, b: int| #[trigger] final(self).prefers(a, b) == old(self).prefers(a, b),
    ;
}

/// Maximizing policy: `fitness = objective - min(objective)`. The larger the
/// objective value, the larger the fitness.
pub struct Maximize;

impl EvaluateFitness for Maximize {
    open spec fn spec_fitness(&self, scores: Seq<int>) -> Seq<int> {
        Seq::new(scores.len(), |i: int| scores[i] - seq_min(scores))
    }

    open spec fn prefers(&self, a: int, b: int) -> bool {
        a >= b
    }

    open spec fn fit_ok(&self, scores: Seq<int>) -> bool {
        seq_scores_ok(scores)
    }

    proof fn lemma_fitness_len(&self, scores: Seq<int>) {
    }

    proof fn lemma_fitness_consistent(&self, scores: Seq<int>, i: int, j: int) {
    }

    proof fn lemma_prefers_total(&self, a: int, b: int, c: int) {
    }

    fn evaluate(&mut self, indvs: &Vec<Individual>) -> (r: Vec<i64>) {
        let n = indvs.len();
        if n == 0 {
            let r: Vec<i64> = Vec::new();
            proof {
                assert(r@ =~= Seq::<i64>::empty());
            }
            return r;
        }
        let ghost scores = scores_of(indvs@);
        let mut min: i64 = indvs[0].objective_value();
        let mut i: usize = 1;
        proof {
            assert(scores.take(1) =~= seq![scores[0]]);
        }
        while i < n
            invariant
                1 <= i <= n,
                n == indvs@.len(),
                scores == scores_of(indvs@),
                min as int == seq_min(scores.take(i as int)),
            decreases n - i,
        {
            proof {
                assert(scores.take(i + 1).drop_last() =~= scores.take(i as int));
            }
            let s = indvs[i].objective_value();
            if s < min {
                min = s;
            }
            i = i + 1;
        }
        proof {
            assert(scores.take(n as int) =~= scores);
            lemma_seq_min(scores);
        }
        let mut r: Vec<i64> = Vec::new();
        let mut i: usize = 0;
        while i < n
            invariant
                i <= n,
                n == indvs@.len(),
                scores == scores_of(indvs@),
                min as int == seq_min(scores),
                seq_scores_ok(scores),
                score_ok(min as int),
                r@.len() == i,
                forall|k: int|
                    0 <= k < i ==> #[trigger] r@[k] as int == self.spec_fitness(scores)[k],
            decreases n - i,
        {
            let s = indvs[i].objective_value();
            proof {
                assert(s as int == scores[i as int]);
                assert(score_ok(scores[i as int]));
            }
            r.push(s - min);
            i = i + 1;
        }
        r
    }
}

/// Minimizing policy: `fitness = max(objective) - objective`. The smaller
/// the objective value, the larger the fitness.
pub struct Minimize;

impl EvaluateFitness for Minimize {
    open spec fn spec_fitness(&self, scores: Seq<int>) -> Seq<int> {
        Seq::new(scores.len(), |i: int| seq_max(scores) - scores[i])
    }

    open spec fn prefers(&self, a: int, b: int) -> bool {
        a <= b
    }

    open spec fn fit_ok(&self, scores: Seq<int>) -> bool {
        seq_scores_ok(scores)
    }

    proof fn lemma_fitness_len(&self, scores: Seq<int>) {
    }

    proof fn lemma_fitness_consistent(&self, scores: Seq<int>, i: int, j: int) {
    }

    proof fn lemma_prefers_total(&self, a: int, b: int, c: int) {
    }

    fn evaluate(&mut self, indvs: &Vec<Individual>) -> (r: Vec<i64>) {
        let n = indvs.len();
        if n == 0 {
            let r: Vec<i64> = Vec::new();
            proof {
                assert(r@ =~= Seq::<i64>::empty());
            }
            return r;
        }
        let ghost scores = scores_of(indvs@);
        let mut max: i64 = indvs[0].objective_value();
        let mut i: usize = 1;
        proof {
            assert(scores.take(1) =~= seq![scores[0]]);
        }
        while i < n
            invariant
                1 <= i <= n,
                n == indvs@.len(),
                scores == scores_of(indvs@),
                max as int == seq_max(scores.take(i as int)),
            decreases n - i,
        {
            proof {
                assert(scores.take(i + 1).drop_last() =~= scores.take(i as int));
            }
            let s = indvs[i].objective_value();
            if s > max {
                max = s;
            }
            i = i + 1;
        }
        proof {
            assert(scores.take(n as int) =~= scores);
            lemma_seq_max(scores);
        }
        let mut r: Vec<i64> = Vec::new();
        let mut i: usize = 0;
        while i < n
            invariant
                i <= n,
                n == indvs@.len(),
                scores == scores_of(indvs@),
                max as int == seq_max(scores),
                seq_scores_ok(scores),
                score_ok(max as int),
                r@.len() == i,
                forall|k: int|
                    0 <= k < i ==> #[trigger] r@[k] as int == self.spec_fitness(scores)[k],
            decreases n - i,
        {
            let s = indvs[i].objective_value();
            proof {
                assert(s as int == scores[i as int]);
                assert(score_ok(scores[i as int]));
            }
            r.push(max - s);
            i = i + 1;
        }
        r
    }
}

/// Maximize assigns every individual a nonnegative fitness, and assigns
/// fitness zero exactly to the individuals with the smallest (the
/// reference) objective value.
pub proof fn lemma_maximize_fitness(m: Maximize, scores: Seq<int>)
    requires
        scores.len() > 0,
    ensures
        forall|i: int| 0 <= i < scores.len() ==> #[trigger] m.spec_fitness(scores)[i] >= 0,
        exists|i: int| 0 <= i < scores.len() && #[trigger] m.spec_fitness(scores)[i] == 0,
        forall|i: int|
            0 <= i < scores.len() ==> (#[trigger] m.spec_fitness(scores)[i] == 0 <==> scores[i]
                == seq_min(scores)),
{
    lemma_seq_min(scores);
    let i = choose|i: int| 0 <= i < scores.len() && #[trigger] scores[i] == seq_min(scores);
    assert(m.spec_fitness(scores)[i] == 0);
}

/// Minimize assigns every individual a nonnegative fitness, and assigns
/// fitness zero exactly to the individuals with the largest (the
/// reference) objective value.
pub proof fn lemma_minimize_fitness(m: Minimize, scores: Seq<int>)
    requires
        scores.len() > 0,
    ensures
        forall|i: int| 0 <= i < scores.len() ==> #[trigger] m.spec_fitness(scores)[i] >= 0,
        exists|i: int| 0 <= i < scores.len() && #[trigger] m.spec_fitness(scores)[i] == 0,
        forall|i: int|
            0 <= i < scores.len() ==> (#[trigger] m.spec_fitness(scores)[i] == 0 <==> scores[i]
                == seq_max(scores)),
{
    lemma_seq_max(scores);
    let i = choose|i: int| 0 <= i < scores.len() && #[trigger] scores[i] == seq_max(scores);
    assert(m.spec_fitness(scores)[i] == 0);
}

} // verus!
