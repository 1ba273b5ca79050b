//! Variation operators: producing child genomes from selected parents.

use vstd::prelude::*;
use crate::encoding::{Binary, Mutate, flip_seq};
use crate::population::Member;
use super::{VariationOperator, members_uniform_len};

verus! {

/// `after` is `before` with `n` distinct random positions flipped (all
/// positions, if the genome is shorter than `n`).
pub open spec fn mutated_bits(before: Seq<bool>, after: Seq<bool>, n: int) -> bool {
    exists|ps: Seq<usize>|
        #![auto]
        ps.len() == (if n <= before.len() {
            n
        } else {
            before.len() as int
        }) && (forall|a: int, b: int| 0 <= a < b < ps.len() ==> ps[a] != ps[b]) && (forall|a: int|
            0 <= a < ps.len() ==> ps[a] < before.len()) && after == flip_seq(before, ps)
}

/// Whoever holds the flipped positions can conclude the mutation relation.
pub proof fn lemma_mutated_bits_intro(before: Seq<bool>, after: Seq<bool>, ps: Seq<usize>, n: int)
    requires
        ps.len() == (if n <= before.len() {
            n
        } else {
            before.len() as int
        }),
        forall|a: int, b: int| 0 <= a < b < ps.len() ==> ps[a] != ps[b],
        forall|a: int| 0 <= a < ps.len() ==> ps[a] < before.len(),
        after == flip_seq(before, ps),
    ensures
        mutated_bits(before, after, n),
{
}

/// A mutated genome keeps its length.
pub proof fn lemma_mutated_bits_len(before: Seq<bool>, after: Seq<bool>, n: int)
    requires
        mutated_bits(before, after, n),
    ensures
        after.len() == before.len(),
{
    let ps = choose|ps: Seq<usize>|
        #![auto]
        ps.len() == (if n <= before.len() {
            n
        } else {
            before.len() as int
        }) && (forall|a: int, b: int| 0 <= a < b < ps.len() ==> ps[a] != ps[b]) && (forall|a: int|
            0 <= a < ps.len() ==> ps[a] < before.len()) && after == flip_seq(before, ps);
    crate::encoding::lemma_flip_seq_len(before, ps);
}

/// Changes (flips) randomly selected bits of each genome.
#[derive(Clone)]
pub struct FlipBitMutation {
    mutation_size: usize,
}

impl FlipBitMutation {
    /// The number of bits each mutation flips, for specifications.
    pub closed spec fn spec_mutation_size(&self) -> int {
        self.mutation_size as int
    }

    /// A mutation of one bit.
    pub fn new() -> (r: Self)
        ensures
            r.spec_mutation_size() == 1,
    {
        FlipBitMutation { mutation_size: 1 }
    }

    /// Set the number of bits to be mutated.
    pub fn mutation_size(self, n: usize) -> (r: Self)
        ensures
            r.spec_mutation_size() == n,
    {
        FlipBitMutation { mutation_size: n }
    }

    /// Mutate every genome in the batch, each at its own random positions.
    pub fn mutate_binary(&self, genomes: &mut Vec<Binary>, rng: &mut rand::rngs::StdRng)
        ensures
            final(genomes)@.len() == old(genomes)@.len(),
            forall|i: int|
                0 <= i < final(genomes)@.len() ==> mutated_bits(
                    old(genomes)@[i]@,
                    #[trigger] final(genomes)@[i]@,
                    self.spec_mutation_size(),
                ),
    {
        let n = genomes.len();
        let mut i: usize = 0;
        while i < n
            invariant
                i <= n,
                n == genomes@.len(),
                old(genomes)@.len() == n,
                forall|k: int| i <= k < n ==> genomes@[k]@ == old(genomes)@[k]@,
                forall|k: int|
                    0 <= k < i ==> mutated_bits(
                        old(genomes)@[k]@,
                        #[trigger] genomes@[k]@,
                        self.spec_mutation_size(),
                    ),
            decreases n - i,
        {
            let mut g = genomes[i].clone();
            g.mutate(self.mutation_size, rng);
            genomes.set(i, g);
            i = i + 1;
        }
    }
}

impl VariationOperator for FlipBitMutation {
    open spec fn var_ok(&self, parents: Seq<Member>) -> bool {
        parents.len() >= 1
    }

    open spec fn breeds(&self, parents: Seq<Member>, out: Seq<Binary>) -> bool {
        &&& out.len() == parents.len()
        &&& forall|i: int|
            0 <= i < out.len() ==> mutated_bits(
                parents[i]@.individual.genome,
                #[trigger] out[i]@,
                self.spec_mutation_size(),
            )
    }

    /// Copy each parent's genome and mutate it.
    fn breed_from(&self, parents: &Vec<Member>, rng: &mut rand::rngs::StdRng) -> (r: Vec<Binary>)
        ensures
            r@.len() == parents@.len(),
            forall|i: int|
                0 <= i < r@.len() ==> mutated_bits(
                    parents@[i]@.individual.genome,
                    #[trigger] r@[i]@,
                    self.spec_mutation_size(),
                ),
    {
        let n = parents.len();
        let mut genomes: Vec<Binary> = Vec::new();
        let mut i: usize = 0;
        while i < n
            invariant
                i <= n,
                n == parents@.len(),
                genomes@.len() == i,
                forall|k: int|
                    0 <= k < i ==> #[trigger] genomes@[k]@ == parents@[k]@.individual.genome,
            decreases n - i,
        {
            genomes.push(parents[i].genome().clone());
            i = i + 1;
        }
        self.mutate_binary(&mut genomes, rng);
        proof {
            assert forall|len: int| members_uniform_len(parents@, len) implies (forall|k: int|
                0 <= k < genomes@.len() ==> #[trigger] genomes@[k]@.len() == len) by {
                assert forall|k: int| 0 <= k < genomes@.len() implies #[trigger] genomes@[k]@.len()
                    == len by {
                    lemma_mutated_bits_len(
                        parents@[k]@.individual.genome,
                        genomes@[k]@,
                        self.spec_mutation_size(),
                    );
                }
            }
        }
        genomes
    }
}

/// A crossover point is picked at random, and the bit at that point is
/// exchanged between the two parent genomes, giving two children.
#[derive(Clone)]
pub struct OnePointCrossOver;

impl OnePointCrossOver {
    /// Cross two genomes of equal, nonzero length at one random position.
    /// Each child keeps its parent's bits except at that position, where it
    /// takes the other parent's bit: no bit is invented.
    pub fn crossover_binary(&self, genomes: &Vec<Binary>, rng: &mut rand::rngs::StdRng) -> (r:
        Vec<Binary>)
        requires
            genomes@.len() == 2,
            genomes@[0]@.len() == genomes@[1]@.len(),
            genomes@[0]@.len() >= 1,
        ensures
            r@.len() == 2,
            r@[0]@.len() == genomes@[0]@.len(),
            r@[1]@.len() == genomes@[1]@.len(),
            exists|i: int|
                0 <= i < genomes@[0]@.len() && r@[0]@ == genomes@[0]@.update(
                    i,
                    genomes@[1]@[i],
                ) && r@[1]@ == genomes@[1]@.update(i, genomes@[0]@[i]),
    {
        let mut g1 = genomes[0].clone();
        let mut g2 = genomes[1].clone();
        let i = crate::random::rand_below(rng, g1.len());
        let b1 = g1.get(i);
        let b2 = g2.get(i);
        g1.set(i, b2);
        g2.set(i, b1);
        let mut r: Vec<Binary> = Vec::new();
        r.push(g1);
        r.push(g2);
        proof {
            assert(r@[0]@ == genomes@[0]@.update(i as int, genomes@[1]@[i as int]));
            assert(r@[1]@ == genomes@[1]@.update(i as int, genomes@[0]@[i as int]));
        }
        r
    }
}

impl VariationOperator for OnePointCrossOver {
    open spec fn var_ok(&self, parents: Seq<Member>) -> bool {
        &&& parents.len() == 2
        &&& parents[0]@.individual.genome.len() == parents[1]@.individual.genome.len()
        &&& parents[0]@.individual.genome.len() >= 1
    }

    open spec fn breeds(&self, parents: Seq<Member>, out: Seq<Binary>) -> bool {
        &&& out.len() == 2
        &&& exists|i: int|
            0 <= i < parents[0]@.individual.genome.len() && out[0]@
                == parents[0]@.individual.genome.update(i, parents[1]@.individual.genome[i])
                && out[1]@ == parents[1]@.individual.genome.update(
                i,
                parents[0]@.individual.genome[i],
            )
    }

    /// Cross the two parents' genomes at one random position.
    fn breed_from(&self, parents: &Vec<Member>, rng: &mut rand::rngs::StdRng) -> (r: Vec<Binary>)
        ensures
            r@.len() == 2,
            exists|i: int|
                0 <= i < parents@[0]@.individual.genome.len() && r@[0]@
                    == parents@[0]@.individual.genome.update(
                    i,
                    parents@[1]@.individual.genome[i],
                ) && r@[1]@ == parents@[1]@.individual.genome.update(
                    i,
                    parents@[0]@.individual.genome[i],
                ),
    {
        let mut genomes: Vec<Binary> = Vec::new();
        genomes.push(parents[0].genome().clone());
        genomes.push(parents[1].genome().clone());
        let r = self.crossover_binary(&genomes, rng);
        proof {
            let i = choose|i: int|
                0 <= i < genomes@[0]@.len() && r@[0]@ == genomes@[0]@.update(
                    i,
                    genomes@[1]@[i],
                ) && r@[1]@ == genomes@[1]@.update(i, genomes@[0]@[i]);
            assert(r@[0]@ == parents@[0]@.individual.genome.update(
                i,
                parents@[1]@.individual.genome[i],
            ));
            assert(r@[1]@ == parents@[1]@.individual.genome.update(
                i,
                parents@[0]@.individual.genome[i],
            ));
        }
        r
    }
}

/// The first child of a triadic crossover: the middle parent's genome, with
/// the bits where the worst two parents agree taken from the best parent.
pub open spec fn triadic_child1(p0: Seq<bool>, p1: Seq<bool>, p2: Seq<bool>) -> Seq<bool> {
    Seq::new(p1.len(), |k: int| if p0[k] == p1[k] {
        p2[k]
    } else {
        p1[k]
    })
}

/// The second child of a triadic crossover: the best parent's genome, with
/// the bits where the worst two parents agree taken from the middle parent.
pub open spec fn triadic_child2(p0: Seq<bool>, p1: Seq<bool>, p2: Seq<bool>) -> Seq<bool> {
    Seq::new(p2.len(), |k: int| if p0[k] == p1[k] {
        p1[k]
    } else {
        p2[k]
    })
}

/// Exchanges, between the two best of three parents, the bits at exactly
/// the positions where the two worst parents agree (the conserved loci).
#[derive(Clone)]
pub struct TriadicCrossOver;

impl TriadicCrossOver {
    /// Order three parents by ascending fitness (worst first) and swap the
    /// conserved loci between the two best.
    pub fn crossover(&self, members: &Vec<Member>, _rng: &mut rand::rngs::StdRng) -> (r: Vec<
        Binary,
    >)
        requires
            members@.len() == 3,
            members_uniform_len(members@, members@[0]@.individual.genome.len() as int),
        ensures
            r@.len() == 2,
            exists|i0: int, i1: int, i2: int|
                #![auto]
                {
                    &&& 0 <= i0 < 3 && 0 <= i1 < 3 && 0 <= i2 < 3
                    &&& i0 != i1 && i0 != i2 && i1 != i2
                    &&& members@[i0]@.fitness <= members@[i1]@.fitness
                    &&& members@[i1]@.fitness <= members@[i2]@.fitness
                    &&& r@[0]@ == triadic_child1(
                        members@[i0]@.individual.genome,
                        members@[i1]@.individual.genome,
                        members@[i2]@.individual.genome,
                    )
                    &&& r@[1]@ == triadic_child2(
                        members@[i0]@.individual.genome,
                        members@[i1]@.individual.genome,
                        members@[i2]@.individual.genome,
                    )
                },
    {
        let f0 = members[0].fitness_value();
        let f1 = members[1].fitness_value();
        let f2 = members[2].fitness_value();
        let mut i0: usize = 0;
        let mut i1: usize = 0;
        let mut i2: usize = 0;
        if f0 <= f1 && f1 <= f2 {
            i1 = 1;
            i2 = 2;
        } else if f0 <= f2 && f2 <= f1 {
            i1 = 2;
            i2 = 1;
        } else if f1 <= f0 && f0 <= f2 {
            i0 = 1;
            i1 = 0;
            i2 = 2;
        } else if f1 <= f2 && f2 <= f0 {
            i0 = 1;
            i1 = 2;
            i2 = 0;
        } else if f2 <= f0 && f0 <= f1 {
            i0 = 2;
            i1 = 0;
            i2 = 1;
        } else {
            i0 = 2;
            i1 = 1;
            i2 = 0;
        }
        let p0 = members[i0].genome();
        let p1 = members[i1].genome();
        let p2 = members[i2].genome();
        let len = p0.len();
        let mut child1: Vec<bool> = Vec::new();
        let mut child2: Vec<bool> = Vec::new();
        let mut k: usize = 0;
        while k < len
            invariant
                k <= len,
                len == p0@.len(),
                p1@.len() == len,
                p2@.len() == len,
                child1@.len() == k,
                child2@.len() == k,
                forall|q: int| 0 <= q < k ==> child1@[q] == triadic_child1(p0@, p1@, p2@)[q],
                forall|q: int| 0 <= q < k ==> child2@[q] == triadic_child2(p0@, p1@, p2@)[q],
            decreases len - k,
        {
            let a = p0.get(k);
            let b = p1.get(k);
            let c = p2.get(k);
            if a == b {
                child1.push(c);
                child2.push(b);
            } else {
                child1.push(b);
                child2.push(c);
            }
            k = k + 1;
        }
        let mut r: Vec<Binary> = Vec::new();
        r.push(Binary::new(child1));
        r.push(Binary::new(child2));
        proof {
            assert(r@[0]@ =~= triadic_child1(p0@, p1@, p2@));
            assert(r@[1]@ =~= triadic_child2(p0@, p1@, p2@));
        }
        r
    }
}

impl VariationOperator for TriadicCrossOver {
    open spec fn var_ok(&self, parents: Seq<Member>) -> bool {
        &&& parents.len() == 3
        &&& members_uniform_len(parents, parents[0]@.individual.genome.len() as int)
    }

    open spec fn breeds(&self, parents: Seq<Member>, out: Seq<Binary>) -> bool {
        &&& out.len() == 2
        &&& exists|i0: int, i1: int, i2: int|
            #![auto]
            {
                &&& 0 <= i0 < 3 && 0 <= i1 < 3 && 0 <= i2 < 3
                &&& i0 != i1 && i0 != i2 && i1 != i2
                &&& parents[i0]@.fitness <= parents[i1]@.fitness
                &&& parents[i1]@.fitness <= parents[i2]@.fitness
                &&& out[0]@ == triadic_child1(
                    parents[i0]@.individual.genome,
                    parents[i1]@.individual.genome,
                    parents[i2]@.individual.genome,
                )
                &&& out[1]@ == triadic_child2(
                    parents[i0]@.individual.genome,
                    parents[i1]@.individual.genome,
                    parents[i2]@.individual.genome,
                )
            }
    }

    fn breed_from(&self, parents: &Vec<Member>, rng: &mut rand::rngs::StdRng) -> (r: Vec<Binary>) {
        let r = self.crossover(parents, rng);
        proof {
            let (i0, i1, i2): (int, int, int) = choose|i0: int, i1: int, i2: int|
                #![auto]
                {
                    &&& 0 <= i0 < 3 && 0 <= i1 < 3 && 0 <= i2 < 3
                    &&& i0 != i1 && i0 != i2 && i1 != i2
                    &&& parents@[i0]@.fitness <= parents@[i1]@.fitness
                    &&& parents@[i1]@.fitness <= parents@[i2]@.fitness
                    &&& r@[0]@ == triadic_child1(
                        parents@[i0]@.individual.genome,
                        parents@[i1]@.individual.genome,
                        parents@[i2]@.individual.genome,
                    )
                    &&& r@[1]@ == triadic_child2(
                        parents@[i0]@.individual.genome,
                        parents@[i1]@.individual.genome,
                        parents@[i2]@.individual.genome,
                    )
                };
            assert(r@[0]@.len() == parents@[i1]@.individual.genome.len());
            assert(r@[1]@.len() == parents@[i2]@.individual.genome.len());
        }
        r
    }
}

} // verus!
