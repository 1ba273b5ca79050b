//! The genetic breeder: selection plus crossover, with a mutation chance.

use vstd::prelude::*;
use crate::encoding::{Binary, Mutate, flip_seq};
use crate::operators::{SelectionOperator, VariationOperator, members_uniform_len};
use crate::operators::variation::{mutated_bits, lemma_mutated_bits_intro};
use crate::population::{Population, Member};
use super::{Breed, pop_uniform_len};

verus! {

/// Round `t` of a breeding run: `count` members selected from the
/// population were crossed into this round's genomes.
pub open spec fn breeder_round_at<C: VariationOperator>(
    cx: C,
    p: &Population,
    count: int,
    parentss: Seq<Seq<Member>>,
    rounds: Seq<Seq<Binary>>,
    t: int,
) -> bool {
    &&& parentss[t].len() == count
    &&& (forall|i: int|
        0 <= i < parentss[t].len() ==> p.spec_has_member(#[trigger] parentss[t][i]@))
    &&& cx.breeds(parentss[t], rounds[t])
}

/// What breeding does: the batch was accumulated in selector-then-crossover
/// rounds until the quota `n` was met (only the final round may overshoot),
/// and then one coin decided for the whole batch: every genome mutated at
/// one random position, or none.
pub open spec fn breeder_outcome<C: VariationOperator>(
    cx: C,
    p: &Population,
    count: int,
    n: int,
    parentss: Seq<Seq<Member>>,
    rounds: Seq<Seq<Binary>>,
    batch: Seq<Binary>,
    r: Seq<Binary>,
) -> bool {
    &&& parentss.len() == rounds.len()
    &&& batch == rounds.flatten()
    &&& (forall|t: int|
        0 <= t < rounds.len() ==> #[trigger] breeder_round_at(cx, p, count, parentss, rounds, t))
    &&& (n >= 1 ==> rounds.len() >= 1 && batch.len() - rounds.last().len() < n)
    &&& r.len() == batch.len()
    &&& ((forall|i: int| 0 <= i < r.len() ==> #[trigger] r[i]@ == batch[i]@) || (forall|i: int|
        0 <= i < r.len() ==> mutated_bits(batch[i]@, #[trigger] r[i]@, 1)))
}

/// Composes one selection operator and one variation operator with a
/// mutation probability, given in millionths.
pub struct GeneticBreeder<C: VariationOperator, S: SelectionOperator> {
    cx_prob_micros: u64,
    mut_prob_micros: u64,
    crossover: Option<C>,
    selector: Option<S>,
}

impl<C: VariationOperator, S: SelectionOperator> GeneticBreeder<C, S> {
    /// The crossover operator, for specifications.
    pub closed spec fn spec_crossover(&self) -> Option<C> {
        self.crossover
    }

    /// The selection operator, for specifications.
    pub closed spec fn spec_selector(&self) -> Option<S> {
        self.selector
    }

    /// The crossover probability in millionths, for specifications.
    pub closed spec fn spec_cx_prob_micros(&self) -> int {
        self.cx_prob_micros as int
    }

    /// The mutation probability in millionths, for specifications.
    pub closed spec fn spec_mut_prob_micros(&self) -> int {
        self.mut_prob_micros as int
    }

    /// Both operators are set, and the probabilities are probabilities.
    pub open spec fn wf(&self) -> bool {
        &&& self.spec_crossover() is Some
        &&& self.spec_selector() is Some
        &&& 0 <= self.spec_mut_prob_micros() <= 1000000
        &&& 0 <= self.spec_cx_prob_micros() <= 1000000
    }

    /// A breeder with certain crossover and a ten percent mutation chance;
    /// set a crossover and a selector before use.
    pub fn new() -> (r: Self)
        ensures
            r.spec_cx_prob_micros() == 1000000,
            r.spec_mut_prob_micros() == 100000,
            r.spec_crossover() is None,
            r.spec_selector() is None,
    {
        GeneticBreeder {
            cx_prob_micros: 1000000,
            mut_prob_micros: 100000,
            crossover: Option::None,
            selector: Option::None,
        }
    }

    /// Set the crossover operator.
    pub fn with_crossover(self, c: C) -> (r: Self)
        ensures
            r.spec_crossover() == Option::Some(c),
            r.spec_selector() == self.spec_selector(),
            r.spec_cx_prob_micros() == self.spec_cx_prob_micros(),
            r.spec_mut_prob_micros() == self.spec_mut_prob_micros(),
    {
        GeneticBreeder { crossover: Option::Some(c), ..self }
    }

    /// Set the selection operator.
    pub fn with_selector(self, s: S) -> (r: Self)
        ensures
            r.spec_selector() == Option::Some(s),
            r.spec_crossover() == self.spec_crossover(),
            r.spec_cx_prob_micros() == self.spec_cx_prob_micros(),
            r.spec_mut_prob_micros() == self.spec_mut_prob_micros(),
    {
        GeneticBreeder { selector: Option::Some(s), ..self }
    }

    /// Set the crossover probability, in millionths.
    pub fn crossover_probability(self, p_micros: u64) -> (r: Self)
        requires
            p_micros <= 1000000,
        ensures
            r.spec_cx_prob_micros() == p_micros,
            r.spec_mut_prob_micros() == self.spec_mut_prob_micros(),
            r.spec_crossover() == self.spec_crossover(),
            r.spec_selector() == self.spec_selector(),
    {
        GeneticBreeder { cx_prob_micros: p_micros, ..self }
    }

    /// Set the mutation probability, in millionths.
    pub fn mutation_probability(self, p_micros: u64) -> (r: Self)
        requires
            p_micros <= 1000000,
        ensures
            r.spec_mut_prob_micros() == p_micros,
            r.spec_cx_prob_micros() == self.spec_cx_prob_micros(),
            r.spec_crossover() == self.spec_crossover(),
            r.spec_selector() == self.spec_selector(),
    {
        GeneticBreeder { mut_prob_micros: p_micros, ..self }
    }
}

impl<C: VariationOperator, S: SelectionOperator> Breed for GeneticBreeder<C, S> {
    /// The breeder is complete, its selector accepts the population and
    /// yields at least one parent per round, and whatever members the
    /// selector hands over, the crossover accepts them.
    open spec fn breed_ok(&self, p: &Population) -> bool {
        &&& self.wf()
        &&& self.spec_selector()->0.sel_ok(p)
        &&& self.spec_selector()->0.sel_count(p) >= 1
        &&& forall|ms: Seq<Member>|
            (ms.len() == self.spec_selector()->0.sel_count(p) && (forall|i: int|
                0 <= i < ms.len() ==> p.spec_has_member(#[trigger] ms[i]@)))
                ==> #[trigger] self.spec_crossover()->0.var_ok(ms)
    }

    /// Select parents and cross them until at least `n` genomes are
    /// accumulated (the final round may overshoot); then, with probability
    /// one minus the mutation probability, flip one random bit of every
    /// genome in the batch.
    fn breed(&mut self, n: usize, population: &Population, rng: &mut rand::rngs::StdRng) -> (r:
        Vec<Binary>)
        ensures
            exists|parentss: Seq<Seq<Member>>, rounds: Seq<Seq<Binary>>, batch: Seq<Binary>|
                breeder_outcome(
                    old(self).spec_crossover()->0,
                    population,
                    old(self).spec_selector()->0.sel_count(population),
                    n as int,
                    parentss,
                    rounds,
                    batch,
                    r@,
                ),
    {
        let ghost mut parentss: Seq<Seq<Member>> = Seq::empty();
        let ghost mut rounds: Seq<Seq<Binary>> = Seq::empty();
        let mut required: Vec<Binary> = Vec::new();
        proof {
            assert(Seq::<Seq<Binary>>::empty().flatten() =~= Seq::<Binary>::empty());
        }
        while required.len() < n
            invariant
                population.wf(),
                self.wf(),
                self == old(self),
                self.spec_selector()->0.sel_ok(population),
                self.spec_selector()->0.sel_count(population) >= 1,
                forall|ms: Seq<Member>|
                    (ms.len() == self.spec_selector()->0.sel_count(population) && (forall|i: int|
                        0 <= i < ms.len() ==> population.spec_has_member(#[trigger] ms[i]@)))
                        ==> #[trigger] self.spec_crossover()->0.var_ok(ms),
                forall|len: int|
                    pop_uniform_len(population, len) ==> (forall|i: int|
                        0 <= i < required@.len() ==> #[trigger] required@[i]@.len() == len),
                parentss.len() == rounds.len(),
                required@ == rounds.flatten(),
                forall|t: int|
                    0 <= t < rounds.len() ==> #[trigger] breeder_round_at(
                        self.spec_crossover()->0,
                        population,
                        self.spec_selector()->0.sel_count(population),
                        parentss,
                        rounds,
                        t,
                    ),
                rounds.len() >= 1 ==> required@.len() - rounds.last().len() < n,
            decreases (if required@.len() < n {
                n - required@.len()
            } else {
                0int
            }),
        {
            let selector = match &self.selector {
                Option::Some(s) => s,
                Option::None => vstd::pervasive::unreached(),
            };
            let parents = selector.select_from(population, rng);
            proof {
                assert(self.spec_crossover()->0.var_ok(parents@));
            }
            let crossover = match &self.crossover {
                Option::Some(c) => c,
                Option::None => vstd::pervasive::unreached(),
            };
            let mut new_genomes = crossover.breed_from(&parents, rng);
            proof {
                assert forall|len: int| pop_uniform_len(population, len) implies (forall|i: int|
                    0 <= i < new_genomes@.len() ==> #[trigger] new_genomes@[i]@.len() == len) by {
                    assert forall|i: int|
                        0 <= i < parents@.len() implies #[trigger] parents@[i]@.individual.genome.len()
                        == len by {
                        let j = choose|j: int|
                            0 <= j < population.spec_individuals().len() && parents@[i]@
                                == population.member_at(j);
                        assert(population.spec_individuals()[j]@.genome.len() == len);
                    }
                    assert(members_uniform_len(parents@, len));
                }
            }
            proof {
                let ghost parentss0 = parentss;
                let ghost rounds0 = rounds;
                rounds0.lemma_flatten_push(new_genomes@);
                parentss = parentss.push(parents@);
                rounds = rounds.push(new_genomes@);
                assert forall|t: int| 0 <= t < rounds.len() implies #[trigger] breeder_round_at(
                    self.spec_crossover()->0,
                    population,
                    self.spec_selector()->0.sel_count(population),
                    parentss,
                    rounds,
                    t,
                ) by {
                    if t < rounds0.len() {
                        assert(parentss[t] == parentss0[t]);
                        assert(rounds[t] == rounds0[t]);
                        assert(breeder_round_at(
                            self.spec_crossover()->0,
                            population,
                            self.spec_selector()->0.sel_count(population),
                            parentss0,
                            rounds0,
                            t,
                        ));
                    } else {
                        assert(parentss[t] == parents@);
                        assert(rounds[t] == new_genomes@);
                    }
                }
            }
            required.append(&mut new_genomes);
        }
        // one coin flip for the whole batch: mutate every genome, or none
        let ghost batch = required@;
        let draw = crate::random::rand_below(rng, 1000000);
        if draw as u64 >= self.mut_prob_micros {
            let m = required.len();
            let mut i: usize = 0;
            while i < m
                invariant
                    i <= m,
                    m == required@.len(),
                    m == batch.len(),
                    forall|len: int|
                        pop_uniform_len(population, len) ==> (forall|k: int|
                            0 <= k < required@.len() ==> #[trigger] required@[k]@.len() == len),
                    forall|k: int| i <= k < m ==> required@[k] == batch[k],
                    forall|k: int|
                        0 <= k < i ==> mutated_bits(batch[k]@, #[trigger] required@[k]@, 1),
                decreases m - i,
            {
                let ghost before = required@[i as int]@;
                let mut g = required[i].clone();
                g.mutate(1, rng);
                proof {
                    let ps = choose|ps: Seq<usize>|
                        #![auto]
                        ps.len() == (if 1 <= before.len() {
                            1int
                        } else {
                            before.len() as int
                        }) && (forall|a: int, b: int| 0 <= a < b < ps.len() ==> ps[a] != ps[b]) && (
                        forall|a: int| 0 <= a < ps.len() ==> ps[a] < before.len()) && g@
                            == flip_seq(before, ps);
                    crate::encoding::lemma_flip_seq_len(before, ps);
                    lemma_mutated_bits_intro(before, g@, ps, 1);
                    assert(mutated_bits(batch[i as int]@, g@, 1));
                }
                required.set(i, g);
                i = i + 1;
            }
        }
        proof {
            assert(breeder_outcome(
                old(self).spec_crossover()->0,
                population,
                old(self).spec_selector()->0.sel_count(population),
                n as int,
                parentss,
                rounds,
                batch,
                required@,
            ));
        }
        required
    }
}

} // verus!
