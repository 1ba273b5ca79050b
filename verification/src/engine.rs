//! The evolution engine: the generational loop as an explicit state machine.

use vstd::prelude::*;
use crate::encoding::Binary;
use crate::individual::{EvaluateObjectiveValue, Individual, indvs_scores_ok, score_ok, scores_of, truthfully_scored};
use crate::fitness::EvaluateFitness;
use crate::gears::{Breed, Survive, Valuer, pop_uniform_len, genome_determines_fitness};
use crate::population::Population;
use crate::termination::{Generation, RunningMean, Terminate};

verus! {

/// The fitness policy accepts every list of safe scores.
pub open spec fn fitness_total<F: EvaluateFitness>(f: F) -> bool {
    forall|scores: Seq<int>|
        (forall|i: int| 0 <= i < scores.len() ==> score_ok(#[trigger] scores[i]))
            ==> #[trigger] f.fit_ok(scores)
}

/// The creator accepts every genome of length `len`.
pub open spec fn creator_accepts<C: EvaluateObjectiveValue>(c: C, len: int) -> bool {
    forall|g: Seq<bool>| g.len() == len ==> #[trigger] c.evaluable(g)
}

/// Result individual `i` is one of the offspring or one of the parents.
pub open spec fn drawn_from_pool(
    result: Seq<Individual>,
    offspring: Seq<Individual>,
    parents: Seq<Individual>,
    i: int,
) -> bool {
    exists|j: int|
        (0 <= j < offspring.len() && result[i]@ == offspring[j]@) || (0 <= j < parents.len()
            && result[i]@ == parents[j]@)
}

/// Every result individual comes from the offspring or from the parents:
/// nothing enters a generation from outside the breeding step.
pub open spec fn from_parents_and_offspring(
    result: Seq<Individual>,
    offspring: Seq<Individual>,
    parents: Seq<Individual>,
) -> bool {
    forall|i: int|
        0 <= i < result.len() ==> #[trigger] drawn_from_pool(result, offspring, parents, i)
}

/// Defines how one population evolves into the next generation's.
pub trait Evolve<F: EvaluateFitness, C: EvaluateObjectiveValue>: Sized {
    /// When a step may be taken.
    spec fn evo_ok(&self, p: &Population, valuer: &Valuer<F, C>) -> bool;

    /// Produce the next population: one full generational step. The result
    /// fits the size limit, keeps the uniform genome length, and carries
    /// safe scores only.
    fn next_generation(
        &mut self,
        cur_population: &Population,
        valuer: &mut Valuer<F, C>,
        rng: &mut rand::rngs::StdRng,
    ) -> (r: Population)
        requires
            cur_population.wf(),
            old(valuer).wf(),
            old(self).evo_ok(cur_population, old(valuer)),
        ensures
            r.wf(),
            final(valuer).wf(),
            final(valuer).spec_creator() == old(valuer).spec_creator(),
            forall|s: Seq<int>|
                #[trigger] final(valuer).spec_fitness_policy()->0.fit_ok(s) == old(
                    valuer,
                ).spec_fitness_policy()->0.fit_ok(s),
            forall|a: int, b: int|
                #[trigger] final(valuer).spec_fitness_policy()->0.prefers(a, b) == old(
                    valuer,
                ).spec_fitness_policy()->0.prefers(a, b),
            r.spec_size_limit() == cur_population.spec_size_limit(),
            r.spec_individuals().len() <= r.spec_size_limit(),
            cur_population.spec_individuals().len() >= 1 && cur_population.spec_size_limit() >= 1
                ==> r.spec_individuals().len() >= 1,
            indvs_scores_ok(r.spec_individuals()),
            forall|len: int|
                pop_uniform_len(cur_population, len) ==> pop_uniform_len(&r, len),
            truthfully_scored(r.spec_individuals(), old(valuer).spec_creator()->0),
            // the result is drawn from this call's offspring and the parents
            exists|offspring: Seq<Individual>|
                from_parents_and_offspring(
                    r.spec_individuals(),
                    offspring,
                    cur_population.spec_individuals(),
                ),
            // the best is never lost: the fittest of the new population
            // carries an objective value preferred over every parent's
            cur_population.spec_size_limit() >= 1 ==> (forall|q: int|
                0 <= q < cur_population.spec_individuals().len() ==> old(
                    valuer,
                ).spec_fitness_policy()->0.prefers(
                    crate::termination::spec_best_objective(&r),
                    #[trigger] cur_population.spec_individuals()[q]@.raw_score,
                )),
    ;
}

/// One generational step: breed new genomes from the parents, evaluate
/// them, pool them with the parents, score the pool, and prune it back to
/// the size limit.
pub fn evolve_one_step<B: Breed, S: Survive, F: EvaluateFitness, C: EvaluateObjectiveValue>(
    cur_population: &Population,
    breeder: &mut B,
    survivor: &mut S,
    valuer: &mut Valuer<F, C>,
    rng: &mut rand::rngs::StdRng,
) -> (r: Population)
    requires
        cur_population.wf(),
        old(valuer).wf(),
        cur_population.spec_individuals().len() >= 1,
        old(breeder).breed_ok(cur_population),
        pop_uniform_len(
            cur_population,
            cur_population.spec_individuals()[0]@.genome.len() as int,
        ),
        creator_accepts(
            old(valuer).spec_creator()->0,
            cur_population.spec_individuals()[0]@.genome.len() as int,
        ),
        fitness_total(old(valuer).spec_fitness_policy()->0),
        indvs_scores_ok(cur_population.spec_individuals()),
        truthfully_scored(cur_population.spec_individuals(), old(valuer).spec_creator()->0),
    ensures
        r.wf(),
        final(valuer).wf(),
        final(valuer).spec_creator() == old(valuer).spec_creator(),
        forall|s: Seq<int>|
            #[trigger] final(valuer).spec_fitness_policy()->0.fit_ok(s) == old(
                valuer,
            ).spec_fitness_policy()->0.fit_ok(s),
        forall|a: int, b: int|
            #[trigger] final(valuer).spec_fitness_policy()->0.prefers(a, b) == old(
                valuer,
            ).spec_fitness_policy()->0.prefers(a, b),
        r.spec_size_limit() == cur_population.spec_size_limit(),
        r.spec_individuals().len() <= r.spec_size_limit(),
        cur_population.spec_size_limit() >= 1 ==> r.spec_individuals().len() >= 1,
        indvs_scores_ok(r.spec_individuals()),
        forall|len: int| pop_uniform_len(cur_population, len) ==> pop_uniform_len(&r, len),
        truthfully_scored(r.spec_individuals(), old(valuer).spec_creator()->0),
        exists|offspring: Seq<Individual>|
            from_parents_and_offspring(
                r.spec_individuals(),
                offspring,
                cur_population.spec_individuals(),
            ),
        cur_population.spec_size_limit() >= 1 ==> (forall|q: int|
            0 <= q < cur_population.spec_individuals().len() ==> old(
                valuer,
            ).spec_fitness_policy()->0.prefers(
                crate::termination::spec_best_objective(&r),
                #[trigger] cur_population.spec_individuals()[q]@.raw_score,
            )),
{
    let ghost len0 = cur_population.spec_individuals()[0]@.genome.len() as int;
    let nlimit = cur_population.size_limit();
    // 1. breed new genomes and evaluate them into new individuals
    let new_genomes = breeder.breed(nlimit, cur_population, rng);
    let ghost gseq = new_genomes@;
    proof {
        assert forall|t: int| 0 <= t < gseq.len() implies old(
            valuer,
        ).spec_creator()->0.evaluable(#[trigger] gseq[t]@) by {
            assert(gseq[t]@.len() == len0);
        }
    }
    let mut new_indvs = valuer.create_individuals(new_genomes);
    let ghost bred = new_indvs@;
    // 2. combine with the current individuals
    let old_indvs = cur_population.individuals();
    let n_old = old_indvs.len();
    let mut i: usize = 0;
    while i < n_old
        invariant
            i <= n_old,
            n_old == cur_population.spec_individuals().len(),
            old_indvs@ == cur_population.spec_individuals(),
            new_indvs@.len() == bred.len() + i,
            forall|k: int| 0 <= k < bred.len() ==> new_indvs@[k] == bred[k],
            forall|k: int|
                0 <= k < i ==> #[trigger] new_indvs@[bred.len() + k]@
                    == cur_population.spec_individuals()[k]@,
        decreases n_old - i,
    {
        new_indvs.push(old_indvs[i].clone());
        i = i + 1;
    }
    let ghost combined = new_indvs@;
    proof {
        assert forall|k: int| 0 <= k < combined.len() implies score_ok(
            #[trigger] combined[k]@.raw_score,
        ) by {
            if k >= bred.len() {
                let k2 = k - bred.len();
                assert(combined[bred.len() + k2]@ == cur_population.spec_individuals()[k2]@);
            } else {
                assert(combined[k] == bred[k]);
                assert(score_ok(bred[k]@.raw_score));
            }
        }
        assert forall|k: int| 0 <= k < combined.len() implies #[trigger] combined[k]@.genome.len()
            == len0 by {
            if k >= bred.len() {
                let k2 = k - bred.len();
                assert(combined[bred.len() + k2]@ == cur_population.spec_individuals()[k2]@);
            } else {
                reveal(crate::individual::individuals_from);
                assert(combined[k] == bred[k]);
                let u = choose|u: int|
                    0 <= u < gseq.len() && gseq[u]@ == #[trigger] bred[k]@.genome;
                assert(gseq[u]@.len() == len0);
            }
        }
    }
    // 3. score the combined pool and prune it back to the size limit
    proof {
        assert forall|k: int| 0 <= k < scores_of(combined).len() implies score_ok(
            #[trigger] scores_of(combined)[k],
        ) by {
            assert(scores_of(combined)[k] == combined[k]@.raw_score);
        }
    }
    let ghost pol0 = old(valuer).spec_fitness_policy()->0;
    let tmp_population = valuer.build_population(new_indvs).with_size_limit(nlimit);
    let ghost pol1 = valuer.spec_fitness_policy()->0;
    let ghost tmpv = tmp_population;
    let ghost fvt = tmp_population.spec_fitness_values();
    proof {
        assert(fitness_total(valuer.spec_fitness_policy()->0)) by {
            assert forall|scores: Seq<int>|
                (forall|i: int| 0 <= i < scores.len() ==> score_ok(#[trigger] scores[i]))
                    implies #[trigger] valuer.spec_fitness_policy()->0.fit_ok(scores) by {
                assert(old(valuer).spec_fitness_policy()->0.fit_ok(scores));
            }
        }
        // the combined pool is scored truthfully, so one genome carries one
        // fitness value
        assert(truthfully_scored(combined, old(valuer).spec_creator()->0)) by {
            assert forall|k: int| 0 <= k < combined.len() implies #[trigger] combined[k]@.raw_score
                == old(valuer).spec_creator()->0.spec_evaluate(combined[k]@.genome) by {
                if k >= bred.len() {
                    let k2 = k - bred.len();
                    assert(combined[bred.len() + k2]@ == cur_population.spec_individuals()[k2]@);
                } else {
                    assert(combined[k] == bred[k]);
                }
            }
        }
        pol0.lemma_fitness_len(scores_of(combined));
        assert(genome_determines_fitness(&tmpv)) by {
            assert forall|i: int, j: int|
                0 <= i < tmpv.spec_individuals().len() && 0 <= j < tmpv.spec_individuals().len()
                    && #[trigger] tmpv.spec_individuals()[i]@.genome
                    == #[trigger] tmpv.spec_individuals()[j]@.genome implies
                tmpv.spec_fitness_values()[i] == tmpv.spec_fitness_values()[j] by {
                let s = scores_of(combined);
                assert(s[i] == s[j]);
                pol0.lemma_fitness_consistent(s, i, j);
                pol0.lemma_fitness_consistent(s, j, i);
                pol0.lemma_prefers_total(s[i], s[j], s[i]);
            }
        }
    }
    let survived_indvs = survivor.survive(tmp_population, rng);
    let ghost survived = survived_indvs@;
    proof {
        assert forall|k: int| 0 <= k < survived.len() implies score_ok(
            #[trigger] survived[k]@.raw_score,
        ) && survived[k]@.genome.len() == len0 by {
            let j = choose|j: int| 0 <= j < combined.len() && survived[k]@ == combined[j]@;
            assert(combined[j]@.genome.len() == len0);
        }
        assert forall|k: int| 0 <= k < scores_of(survived).len() implies score_ok(
            #[trigger] scores_of(survived)[k],
        ) by {
            assert(scores_of(survived)[k] == survived[k]@.raw_score);
        }
    }
    let r = valuer.build_population(survived_indvs).with_size_limit(nlimit);
    proof {
        assert forall|len: int|
            pop_uniform_len(cur_population, len) implies pop_uniform_len(&r, len) by {
            assert(cur_population.spec_individuals()[0]@.genome.len() == len);
        }
        assert(indvs_scores_ok(r.spec_individuals()));
        assert(truthfully_scored(r.spec_individuals(), old(valuer).spec_creator()->0)) by {
            assert forall|k: int| 0 <= k < survived.len() implies #[trigger] survived[k]@.raw_score
                == old(valuer).spec_creator()->0.spec_evaluate(survived[k]@.genome) by {
                let j = choose|j: int| 0 <= j < combined.len() && survived[k]@ == combined[j]@;
            }
        }
        assert forall|i: int| 0 <= i < r.spec_individuals().len() implies #[trigger] drawn_from_pool(
            r.spec_individuals(),
            bred,
            cur_population.spec_individuals(),
            i,
        ) by {
            let j = choose|j: int| 0 <= j < combined.len() && survived[i]@ == combined[j]@;
            if j < bred.len() {
                assert(combined[j] == bred[j]);
                assert(r.spec_individuals()[i]@ == bred[j]@);
            } else {
                let j2 = j - bred.len();
                assert(combined[bred.len() + j2]@ == cur_population.spec_individuals()[j2]@);
                assert(r.spec_individuals()[i]@ == cur_population.spec_individuals()[j2]@);
            }
        }
        assert(from_parents_and_offspring(
            r.spec_individuals(),
            bred,
            cur_population.spec_individuals(),
        ));
        if nlimit >= 1 {
            // the pruned pool keeps a member of maximal fitness; the new
            // best is at least as fit, so at least as preferred
            let s = scores_of(combined);
            let sr = scores_of(survived);
            crate::fitness::lemma_seq_max(fvt);
            let (iw, j0): (int, int) = choose|iw: int, j0: int|
                0 <= iw < survived.len() && 0 <= j0 < tmpv.spec_individuals().len() && survived[iw]@
                    == tmpv.spec_individuals()[j0]@ && tmpv.spec_fitness_values()[j0]
                    == crate::fitness::seq_max(tmpv.spec_fitness_values());
            pol1.lemma_fitness_len(sr);
            let fvr = r.spec_fitness_values();
            crate::population::lemma_first_max_index(fvr);
            let fmi = crate::population::first_max_index(fvr);
            assert(pol1.fit_ok(sr));
            pol1.lemma_fitness_consistent(sr, fmi, iw);
            assert(pol1.prefers(sr[fmi], sr[iw]));
            assert(sr[iw] == s[j0]);
            assert(crate::termination::spec_best_objective(&r) == sr[fmi]);
            assert forall|q: int| 0 <= q < cur_population.spec_individuals().len() implies
                pol0.prefers(
                crate::termination::spec_best_objective(&r),
                #[trigger] cur_population.spec_individuals()[q]@.raw_score,
            ) by {
                let k = bred.len() + q;
                assert(combined[bred.len() + q]@ == cur_population.spec_individuals()[q]@);
                assert(fvt[j0] >= fvt[k]);
                pol0.lemma_fitness_consistent(s, j0, k);
                assert(pol0.prefers(s[j0], s[k]));
                assert(pol0.prefers(sr[fmi], sr[iw]));
                pol0.lemma_prefers_total(sr[fmi], s[j0], s[k]);
            }
        }
    }
    r
}

/// The core generational algorithm: a breeder paired with a survivor.
pub struct EvolutionAlgorithm<B: Breed, S: Survive> {
    breeder: B,
    survivor: S,
}

impl<B: Breed, S: Survive> EvolutionAlgorithm<B, S> {
    /// The breeder, for specifications.
    pub closed spec fn spec_breeder(&self) -> B {
        self.breeder
    }

    /// Pair a breeder with a survivor.
    pub fn new(breeder: B, survivor: S) -> (r: Self)
        ensures
            r.spec_breeder() == breeder,
    {
        EvolutionAlgorithm { breeder, survivor }
    }
}

impl<B: Breed, S: Survive, F: EvaluateFitness, C: EvaluateObjectiveValue> Evolve<F, C>
    for EvolutionAlgorithm<B, S> {
    open spec fn evo_ok(&self, p: &Population, valuer: &Valuer<F, C>) -> bool {
        &&& p.spec_individuals().len() >= 1
        &&& self.spec_breeder().breed_ok(p)
        &&& pop_uniform_len(p, p.spec_individuals()[0]@.genome.len() as int)
        &&& creator_accepts(
            valuer.spec_creator()->0,
            p.spec_individuals()[0]@.genome.len() as int,
        )
        &&& fitness_total(valuer.spec_fitness_policy()->0)
        &&& indvs_scores_ok(p.spec_individuals())
        &&& truthfully_scored(p.spec_individuals(), valuer.spec_creator()->0)
    }

    fn next_generation(
        &mut self,
        cur_population: &Population,
        valuer: &mut Valuer<F, C>,
        rng: &mut rand::rngs::StdRng,
    ) -> (r: Population) {
        evolve_one_step(cur_population, &mut self.breeder, &mut self.survivor, valuer, rng)
    }
}

/// The evolution engine: collects the algorithm, the valuer and the
/// termination window, and starts a run from seed genomes.
pub struct Engine<E, F, C> where
    F: EvaluateFitness,
    C: EvaluateObjectiveValue,
    E: Evolve<F, C>,
 {
    nlast: usize,
    algo: Option<E>,
    valuer: Option<Valuer<F, C>>,
}

impl<E, F, C> Engine<E, F, C> where
    F: EvaluateFitness,
    C: EvaluateObjectiveValue,
    E: Evolve<F, C>,
 {
    /// The termination window size, for specifications.
    pub closed spec fn spec_nlast(&self) -> int {
        self.nlast as int
    }

    /// The algorithm, for specifications.
    pub closed spec fn spec_algo(&self) -> Option<E> {
        self.algo
    }

    /// The valuer, for specifications.
    pub closed spec fn spec_valuer(&self) -> Option<Valuer<F, C>> {
        self.valuer
    }

    /// An empty engine with a termination window of 30 generations; set an
    /// algorithm and a valuer before evolving.
    pub fn create() -> (r: Self)
        ensures
            r.spec_nlast() == 30,
            r.spec_algo() is None,
            r.spec_valuer() is None,
    {
        Engine { nlast: 30, algo: Option::None, valuer: Option::None }
    }

    /// Set the core algorithm for evolution.
    pub fn algorithm(self, algo: E) -> (r: Self)
        ensures
            r.spec_algo() == Option::Some(algo),
            r.spec_valuer() == self.spec_valuer(),
            r.spec_nlast() == self.spec_nlast(),
    {
        Engine { algo: Option::Some(algo), ..self }
    }

    /// The last `n` generations considered by the termination criterion.
    pub fn termination_nlast(self, n: usize) -> (r: Self)
        requires
            2 <= n <= 0x10_0000,
        ensures
            r.spec_nlast() == n,
            r.spec_algo() == self.spec_algo(),
            r.spec_valuer() == self.spec_valuer(),
    {
        Engine { nlast: n, ..self }
    }

    /// Set the last `n` generations considered by the termination criterion.
    pub fn set_termination_nlast(&mut self, n: usize)
        requires
            2 <= n <= 0x10_0000,
        ensures
            final(self).spec_nlast() == n,
            final(self).spec_algo() == old(self).spec_algo(),
            final(self).spec_valuer() == old(self).spec_valuer(),
    {
        self.nlast = n;
    }

    /// Set the valuer for evolution.
    pub fn valuer(self, valuer: Valuer<F, C>) -> (r: Self)
        ensures
            r.spec_valuer() == Option::Some(valuer),
            r.spec_algo() == self.spec_algo(),
            r.spec_nlast() == self.spec_nlast(),
    {
        Engine { valuer: Option::Some(valuer), ..self }
    }

    /// Start a run from seed genomes. The seeds' number becomes the
    /// population size limit for the whole run, and the engine's operators
    /// move into the run: a run is started once.
    pub fn evolve(self, seeds: Vec<Binary>) -> (run: Evolution<E, F, C>)
        requires
            self.spec_algo() is Some,
            self.spec_valuer() is Some,
            self.spec_valuer()->0.wf(),
            1 <= self.spec_nlast() <= 0x10_0000,
            seeds@.len() >= 1,
            forall|t: int|
                0 <= t < seeds@.len() ==> #[trigger] seeds@[t]@.len() == seeds@[0]@.len(),
            creator_accepts(self.spec_valuer()->0.spec_creator()->0, seeds@[0]@.len() as int),
            fitness_total(self.spec_valuer()->0.spec_fitness_policy()->0),
        ensures
            run.runnable(),
            run.spec_ig() == 0,
            !run.spec_done(),
            run.spec_population().spec_size_limit() == seeds@.len(),
            // the initial population holds exactly the deduplicated,
            // evaluated seeds, scored by the fitness policy
            run.spec_population().spec_individuals().len() <= seeds@.len(),
            forall|i: int, j: int|
                0 <= i < j < run.spec_population().spec_individuals().len()
                    ==> run.spec_population().spec_individuals()[i]@.genome
                    != run.spec_population().spec_individuals()[j]@.genome,
            crate::individual::individuals_from(
                seeds@,
                seeds@.len() as int,
                run.spec_population().spec_individuals(),
            ),
            crate::individual::genomes_covered(
                seeds@,
                seeds@.len() as int,
                run.spec_population().spec_individuals(),
            ),
            run.spec_population().spec_fitness_values()
                =~= self.spec_valuer()->0.spec_fitness_policy()->0.spec_fitness(
                scores_of(run.spec_population().spec_individuals()),
            ),
    {
        let Engine { nlast, algo, valuer } = self;
        let algo = match algo {
            Option::Some(a) => a,
            Option::None => vstd::pervasive::unreached(),
        };
        let mut valuer = match valuer {
            Option::Some(v) => v,
            Option::None => vstd::pervasive::unreached(),
        };
        let termination = RunningMean::new(nlast);
        let nlimit = seeds.len();
        let ghost sv = seeds@;
        proof {
            assert forall|t: int| 0 <= t < sv.len() implies valuer.spec_creator()->0.evaluable(
                #[trigger] sv[t]@,
            ) by {
                assert(sv[t]@.len() == sv[0]@.len());
            }
        }
        let indvs = valuer.create_individuals(seeds);
        let ghost iv = indvs@;
        proof {
            assert forall|k: int| 0 <= k < scores_of(iv).len() implies score_ok(
                #[trigger] scores_of(iv)[k],
            ) by {
                assert(scores_of(iv)[k] == iv[k]@.raw_score);
            }
        }
        let population = valuer.build_population(indvs).with_size_limit(nlimit);
        proof {
            reveal(crate::individual::individuals_from);
            assert forall|i: int|
                0 <= i < population.spec_individuals().len()
                    implies #[trigger] population.spec_individuals()[i]@.genome.len()
                == population.spec_individuals()[0]@.genome.len() by {
                let u = choose|u: int|
                    0 <= u < sv.len() && sv[u]@ == #[trigger] iv[i]@.genome;
                let u0 = choose|u0: int|
                    0 <= u0 < sv.len() && sv[u0]@ == #[trigger] iv[0]@.genome;
                assert(iv[i]@.genome.len() == sv[0]@.len());
                assert(iv[0]@.genome.len() == sv[0]@.len());
            }
            assert(indvs_scores_ok(population.spec_individuals()));
        }
        Evolution { algo, valuer, termination, population, ig: 0, done: false }
    }
}

/// A running evolution: a lazy sequence of generations, one per `step`
/// call, ending when the termination criterion fires.
pub struct Evolution<E, F, C> where
    F: EvaluateFitness,
    C: EvaluateObjectiveValue,
    E: Evolve<F, C>,
 {
    algo: E,
    valuer: Valuer<F, C>,
    termination: RunningMean,
    population: Population,
    ig: usize,
    done: bool,
}

impl<E, F, C> Evolution<E, F, C> where
    F: EvaluateFitness,
    C: EvaluateObjectiveValue,
    E: Evolve<F, C>,
 {
    /// The current population, for specifications.
    pub closed spec fn spec_population(&self) -> Population {
        self.population
    }

    /// The algorithm, for specifications.
    pub closed spec fn spec_algo(&self) -> E {
        self.algo
    }

    /// The valuer, for specifications.
    pub closed spec fn spec_valuer(&self) -> Valuer<F, C> {
        self.valuer
    }

    /// The termination criterion's state, for specifications.
    pub closed spec fn spec_termination(&self) -> RunningMean {
        self.termination
    }

    /// The next generation index, for specifications.
    pub closed spec fn spec_ig(&self) -> int {
        self.ig as int
    }

    /// Whether the run has ended, for specifications.
    pub closed spec fn spec_done(&self) -> bool {
        self.done
    }

    /// The run's invariant: the population is well formed, nonempty and
    /// within its limit, its genomes share one length, scores are safe, and
    /// the termination window tracks the generation count.
    pub open spec fn runnable(&self) -> bool {
        &&& self.spec_population().wf()
        &&& 1 <= self.spec_population().spec_individuals().len()
        &&& self.spec_population().spec_individuals().len()
            <= self.spec_population().spec_size_limit()
        &&& pop_uniform_len(
            &self.spec_population(),
            self.spec_population().spec_individuals()[0]@.genome.len() as int,
        )
        &&& indvs_scores_ok(self.spec_population().spec_individuals())
        &&& truthfully_scored(
            self.spec_population().spec_individuals(),
            self.spec_valuer().spec_creator()->0,
        )
        &&& self.spec_valuer().wf()
        &&& self.spec_termination().wf()
        &&& self.spec_termination().spec_scores().len() == (if self.spec_ig()
            < self.spec_termination().spec_nlast() {
            self.spec_ig()
        } else {
            self.spec_termination().spec_nlast()
        })
    }

    /// Take one step: produce the next generation, or nothing once the
    /// termination criterion has fired. Each step breeds, evaluates,
    /// combines, prunes and checks convergence, atomically from the
    /// caller's view.
    pub fn step(&mut self, rng: &mut rand::rngs::StdRng) -> (r: Option<Generation>)
        requires
            old(self).runnable(),
            old(self).spec_algo().evo_ok(
                &old(self).spec_population(),
                &old(self).spec_valuer(),
            ),
            old(self).spec_ig() < 0xffff_ffff,
        ensures
            final(self).runnable(),
            final(self).spec_done() ==> r is None,
            // a finished run stays as it is
            old(self).spec_done() ==> *final(self) == *old(self),
            // the first step yields the initial population untouched
            !old(self).spec_done() && old(self).spec_ig() == 0 ==> final(self).spec_population()
                == old(self).spec_population(),
            !old(self).spec_done() ==> final(self).spec_ig() == old(self).spec_ig() + 1,
            !old(self).spec_done() ==> (final(self).spec_done() <==> r is None),
            final(self).spec_population().spec_size_limit()
                == old(self).spec_population().spec_size_limit(),
            final(self).spec_valuer().spec_creator() == old(self).spec_valuer().spec_creator(),
            // the run ends exactly when the running-mean criterion fires on
            // the new population's best objective value
            !old(self).spec_done() ==> (r is None <==> (old(self).spec_ig() >= old(
                self,
            ).spec_termination().spec_nlast() && crate::termination::running_mean_converged(
                old(self).spec_termination().spec_scores(),
                crate::termination::spec_best_objective(&final(self).spec_population()),
                old(self).spec_termination().spec_epsilon_micros(),
            ))),
            // a yielded generation is the tracked state: same index, same
            // members, same limit
            r is Some ==> !old(self).spec_done() && r->0.index as int == old(self).spec_ig()
                && r->0.population.wf() && r->0.population.spec_size_limit()
                == final(self).spec_population().spec_size_limit()
                && r->0.population.spec_individuals().len()
                == final(self).spec_population().spec_individuals().len() && (forall|i: int|
                0 <= i < r->0.population.spec_individuals().len()
                    ==> #[trigger] r->0.population.member_at(i)
                    == final(self).spec_population().member_at(i)),
            // the best objective value never worsens from one generation to
            // the next
            (r is Some && old(self).spec_ig() >= 1) ==> old(
                self,
            ).spec_valuer().spec_fitness_policy()->0.prefers(
                crate::termination::spec_best_objective(&final(self).spec_population()),
                crate::termination::spec_best_objective(&old(self).spec_population()),
            ),
    {
        if self.done {
            return Option::None;
        }
        if self.ig > 0 {
            let ghost oldpop = self.population;
            let newp = self.algo.next_generation(&self.population, &mut self.valuer, rng);
            self.population = newp;
            proof {
                let oldfv = oldpop.spec_fitness_values();
                crate::population::lemma_first_max_index(oldfv);
                let fmi = crate::population::first_max_index(oldfv);
                assert(crate::termination::spec_best_objective(&oldpop)
                    == oldpop.spec_individuals()[fmi]@.raw_score);
            }
        }
        let snapshot = self.population.clone();
        proof {
            assert(snapshot.wf());
            assert(indvs_scores_ok(snapshot.spec_individuals()));
            // the snapshot and the tracked population agree member by
            // member, so they share their best objective value
            assert(snapshot.spec_fitness_values() == self.population.spec_fitness_values());
            crate::population::lemma_first_max_index(snapshot.spec_fitness_values());
            assert(crate::termination::spec_best_objective(&snapshot)
                == crate::termination::spec_best_objective(&self.population));
        }
        let g = Generation { index: self.ig, population: snapshot };
        self.ig = self.ig + 1;
        let stop = self.termination.meets(&g);
        if stop {
            self.done = true;
            Option::None
        } else {
            Option::Some(g)
        }
    }
}

} // verus!
