//! Termination criteria for the generational loop.

use vstd::prelude::*;
use crate::individual::{score_ok, indvs_scores_ok, Individual};
use crate::population::{Population, first_max_index, lemma_first_max_index};
use crate::fitness::seq_sum;

verus! {

/// One step of the evolutionary loop: a population snapshot and its index.
pub struct Generation {
    pub index: usize,
    pub population: Population,
}

/// The objective value of the best (first largest-fitness) member.
pub open spec fn spec_best_objective(p: &Population) -> int {
    p.member_at(first_max_index(p.spec_fitness_values())).individual.raw_score
}

impl Generation {
    /// Return the best individual in this generation.
    pub fn best_individual(&self) -> (r: Individual)
        requires
            self.population.wf(),
            self.population.spec_individuals().len() > 0,
        ensures
            r@ == self.population.member_at(
                first_max_index(self.population.spec_fitness_values()),
            ).individual,
            r@.raw_score == spec_best_objective(&self.population),
    {
        match self.population.best_member() {
            Option::Some(m) => m.into_individual(),
            Option::None => vstd::pervasive::unreached(),
        }
    }
}

/// Common interface for termination conditions.
pub trait Terminate: Sized {
    /// The internal invariant of the criterion's state.
    spec fn term_wf(&self) -> bool;

    /// What the criterion asks of the generation it is shown.
    spec fn term_ready(&self, g: &Generation) -> bool;

    fn meets(&mut self, generation: &Generation) -> (r: bool)
        requires
            old(self).term_wf(),
            old(self).term_ready(generation),
        ensures
            final(self).term_wf(),
    ;
}

pub open spec fn abs_int(x: int) -> int {
    if x < 0 {
        -x
    } else {
        x
    }
}

proof fn lemma_seq_sum_bound(s: Seq<int>)
    requires
        forall|i: int| 0 <= i < s.len() ==> score_ok(#[trigger] s[i]),
    ensures
        -(s.len() * 0x100_0000_0000) <= seq_sum(s) <= s.len() * 0x100_0000_0000,
    decreases s.len(),
{
    if s.len() > 0 {
        lemma_seq_sum_bound(s.drop_last());
    }
}

/// The running-mean criterion is met: the best objective value of the
/// current generation differs from the mean of the recorded window by less
/// than `eps_micros` millionths. Stated over integers: the comparison
/// `|best - sum/n| < eps_micros / 10^6` is multiplied out by `10^6 * n`.
pub open spec fn running_mean_converged(scores: Seq<int>, best: int, eps_micros: int) -> bool {
    abs_int(best * scores.len() - seq_sum(scores)) * 1000000 < eps_micros * scores.len()
}

/// Terminates the simulation when the best objective value has stopped
/// improving: its difference from the running mean of the last `nlast`
/// generations' best values falls below a threshold given in millionths.
pub struct RunningMean {
    nlast: usize,
    epsilon_micros: u64,
    scores: Vec<i64>,
}

impl RunningMean {
    /// The window size, for specifications.
    pub closed spec fn spec_nlast(&self) -> int {
        self.nlast as int
    }

    /// The convergence threshold in millionths, for specifications.
    pub closed spec fn spec_epsilon_micros(&self) -> int {
        self.epsilon_micros as int
    }

    /// The recorded best scores, oldest first, for specifications.
    pub closed spec fn spec_scores(&self) -> Seq<int> {
        Seq::new(self.scores@.len(), |i: int| self.scores@[i] as int)
    }

    /// The window never outgrows `nlast`, and records safe scores only.
    pub open spec fn wf(&self) -> bool {
        &&& 1 <= self.spec_nlast() <= 0x10_0000
        &&& self.spec_scores().len() <= self.spec_nlast()
        &&& forall|i: int| 0 <= i < self.spec_scores().len() ==> score_ok(#[trigger] self.spec_scores()[i])
    }

    /// Construct a running-mean termination over the best values of the
    /// last `nlast` generations, with a threshold of one millionth.
    pub fn new(nlast: usize) -> (r: Self)
        requires
            1 <= nlast <= 0x10_0000,
        ensures
            r.wf(),
            r.spec_nlast() == nlast,
            r.spec_epsilon_micros() == 1,
            r.spec_scores() =~= Seq::<int>::empty(),
    {
        RunningMean { nlast, epsilon_micros: 1, scores: Vec::new() }
    }
}

impl Default for RunningMean {
    /// A window of 30 generations and a threshold of one millionth.
    fn default() -> (r: Self)
        ensures
            r.wf(),
            r.spec_nlast() == 30,
            r.spec_epsilon_micros() == 1,
            r.spec_scores() =~= Seq::<int>::empty(),
    {
        RunningMean { nlast: 30, epsilon_micros: 1, scores: Vec::new() }
    }
}

impl Terminate for RunningMean {
    open spec fn term_wf(&self) -> bool {
        self.wf()
    }

    open spec fn term_ready(&self, g: &Generation) -> bool {
        &&& g.population.wf()
        &&& g.population.spec_individuals().len() > 0
        &&& indvs_scores_ok(g.population.spec_individuals())
        &&& self.spec_scores().len() == if g.index < self.spec_nlast() {
            g.index as int
        } else {
            self.spec_nlast()
        }
    }

    /// For the first `nlast` generations, record the best objective value
    /// and give no verdict. From then on, signal termination when the best
    /// value is within epsilon of the window's mean; otherwise slide the
    /// window and continue.
    fn meets(&mut self, generation: &Generation) -> (r: bool)
        ensures
            final(self).spec_nlast() == old(self).spec_nlast(),
            final(self).spec_epsilon_micros() == old(self).spec_epsilon_micros(),
            ({
                let best = spec_best_objective(&generation.population);
                let w0 = old(self).spec_scores();
                if generation.index < old(self).spec_nlast() {
                    r == false && final(self).spec_scores() == w0.push(best)
                } else if running_mean_converged(w0, best, old(self).spec_epsilon_micros()) {
                    r == true && final(self).spec_scores() == w0
                } else {
                    r == false && final(self).spec_scores() == w0.drop_first().push(best)
                }
            }),
    {
        let ghost fv = generation.population.spec_fitness_values();
        proof {
            lemma_first_max_index(fv);
        }
        let best = match generation.population.best_member() {
            Option::Some(m) => m.objective_value(),
            Option::None => vstd::pervasive::unreached(),
        };
        proof {
            assert(score_ok(best as int));
        }
        if generation.index < self.nlast {
            self.scores.push(best);
            proof {
                assert(self.spec_scores() =~= old(self).spec_scores().push(best as int));
            }
            return false;
        }
        let n = self.scores.len();
        let ghost w0 = self.spec_scores();
        let mut sum: i128 = 0;
        let mut i: usize = 0;
        proof {
            assert(w0.take(0) =~= Seq::<int>::empty());
        }
        while i < n
            invariant
                i <= n,
                n == self.scores@.len(),
                w0 == self.spec_scores(),
                n <= 0x10_0000,
                forall|k: int| 0 <= k < n ==> score_ok(#[trigger] w0[k]),
                sum as int == seq_sum(w0.take(i as int)),
                -(i * 0x100_0000_0000) <= sum as int <= i * 0x100_0000_0000,
            decreases n - i,
        {
            proof {
                assert(w0.take(i + 1).drop_last() =~= w0.take(i as int));
                assert(w0.take(i + 1).last() == w0[i as int]);
                assert(score_ok(w0[i as int]));
            }
            sum = sum + self.scores[i] as i128;
            i = i + 1;
        }
        proof {
            assert(w0.take(n as int) =~= w0);
        }
        proof {
            assert(-0x1_0000_0000_0000_0000_0000 <= best as int * n as int
                <= 0x1_0000_0000_0000_0000_0000) by (nonlinear_arith)
                requires
                    -0x100_0000_0000 <= best as int <= 0x100_0000_0000,
                    0 <= n as int <= 0x10_0000,
            ;
        }
        let prod: i128 = best as i128 * n as i128;
        let diff: i128 = prod - sum;
        let absdiff: i128 = if diff < 0 {
            -diff
        } else {
            diff
        };
        let lhs: i128 = absdiff * 1000000;
        proof {
            assert(self.epsilon_micros as int * n as int
                <= 0x1_0000_0000_0000_0000_0000_0000) by (nonlinear_arith)
                requires
                    self.epsilon_micros as int >= 0,
                    (self.epsilon_micros as int) < 0x1_0000_0000_0000_0000,
                    n as int >= 0,
                    n as int <= 0x10_0000,
            ;
        }
        let rhs: i128 = self.epsilon_micros as i128 * n as i128;
        proof {
            assert(lhs as int == abs_int(best as int * w0.len() - seq_sum(w0)) * 1000000);
            assert(rhs as int == self.spec_epsilon_micros() * w0.len());
        }
        if lhs < rhs {
            return true;
        }
        let _ = self.scores.remove(0);
        self.scores.push(best);
        proof {
            assert(self.spec_scores() =~= w0.drop_first().push(best as int));
        }
        false
    }
}

} // verus!
