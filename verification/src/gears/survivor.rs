//! Survival pruning: keep the fittest individuals within the size limit.

use vstd::prelude::*;
use crate::individual::Individual;
use crate::population::{Population, Member, SortMember, lemma_multiset_members};
use crate::fitness::{seq_max, lemma_seq_max};
use super::{Survive, genome_determines_fitness};

verus! {

broadcast use vstd::seq_lib::group_to_multiset_ensures;

/// Genome `u` of `ms` is carried by some member of `kept`.
pub open spec fn genome_covered_at(ms: Seq<Member>, kept: Seq<Member>, u: int) -> bool {
    exists|k: int| 0 <= k < kept.len() && ms[u]@.individual.genome == kept[k]@.individual.genome
}

/// What pruning does: the member list `ms` of `p`, optionally deduplicated
/// by genome into `kept` (one member per distinct genome, none lost), is
/// reordered into the descending-by-fitness `ranked`, whose leading
/// individuals are the survivors: whoever was dropped ranked at or below
/// every survivor.
pub open spec fn survivor_outcome(
    p: &Population,
    dedup: bool,
    ms: Seq<Member>,
    kept: Seq<Member>,
    ranked: Seq<Member>,
    r: Seq<Individual>,
) -> bool {
    &&& ms.len() == p.spec_individuals().len()
    &&& (forall|i: int| 0 <= i < ms.len() ==> #[trigger] ms[i]@ == p.member_at(i))
    &&& (if dedup {
        &&& (forall|a: int, b: int|
            0 <= a < b < kept.len() ==> kept[a]@.individual.genome != kept[b]@.individual.genome)
        &&& (forall|k: int| 0 <= k < kept.len() ==> p.spec_has_member(#[trigger] kept[k]@))
        &&& (forall|u: int| 0 <= u < ms.len() ==> #[trigger] genome_covered_at(ms, kept, u))
    } else {
        kept == ms
    })
    &&& ranked.to_multiset() == kept.to_multiset()
    &&& crate::population::sorted_desc(ranked)
    &&& r.len() == (if p.spec_size_limit() <= ranked.len() {
        p.spec_size_limit()
    } else {
        ranked.len() as int
    })
    &&& (forall|i: int| 0 <= i < r.len() ==> #[trigger] r[i]@ == ranked[i]@.individual)
}

/// Prunes a population to its size limit by fitness ranking, optionally
/// keeping one copy of each distinct genome first.
#[derive(Clone)]
pub struct Survivor {
    remove_duplicates: bool,
}

impl Survivor {
    /// Whether duplicate genomes are dropped before ranking, for
    /// specifications.
    pub closed spec fn spec_remove_duplicates(&self) -> bool {
        self.remove_duplicates
    }

    /// A survivor that keeps duplicate genomes.
    pub fn create() -> (r: Self)
        ensures
            !r.spec_remove_duplicates(),
    {
        Survivor { remove_duplicates: false }
    }

    /// Choose whether to drop duplicate genomes before ranking.
    pub fn remove_duplicates(self, r: bool) -> (s: Self)
        ensures
            s.spec_remove_duplicates() == r,
    {
        Survivor { remove_duplicates: r }
    }
}

impl Default for Survivor {
    fn default() -> (r: Self)
        ensures
            !r.spec_remove_duplicates(),
    {
        Survivor { remove_duplicates: false }
    }
}

impl Survive for Survivor {
    /// Optionally deduplicate by genome (keeping the first copy), sort the
    /// rest by descending fitness, and keep the first `size_limit`.
    fn survive(&mut self, population: Population, rng: &mut rand::rngs::StdRng) -> (r: Vec<
        Individual,
    >)
        ensures
            exists|ms: Seq<Member>, kept: Seq<Member>, ranked: Seq<Member>|
                survivor_outcome(
                    &population,
                    old(self).spec_remove_duplicates(),
                    ms,
                    kept,
                    ranked,
                    r@,
                ),
    {
        let ghost fv = population.spec_fitness_values();
        let limit = population.size_limit();
        let mut members = population.members();
        let ghost members0 = members@;
        // `reps` maps each already-visited member to the index of the kept
        // member that carries its genome
        let ghost mut reps: Map<int, int> = Map::empty();
        if self.remove_duplicates {
            let mut kept: Vec<Member> = Vec::new();
            let m = members.len();
            let mut t: usize = 0;
            while t < m
                invariant
                    t <= m,
                    m == members@.len(),
                    members@ == members0,
                    m == population.spec_individuals().len(),
                    forall|i: int|
                        0 <= i < m ==> #[trigger] members0[i]@ == population.member_at(i),
                    kept@.len() <= t,
                    t >= 1 ==> kept@.len() >= 1,
                    forall|k: int|
                        0 <= k < kept@.len() ==> population.spec_has_member(
                            #[trigger] kept@[k]@,
                        ),
                    forall|u: int|
                        0 <= u < t ==> 0 <= #[trigger] reps[u] < kept@.len()
                            && members0[u]@.individual.genome
                            == kept@[reps[u]]@.individual.genome,
                    forall|a: int, b: int|
                        0 <= a < b < kept@.len() ==> kept@[a]@.individual.genome
                            != kept@[b]@.individual.genome,
                decreases m - t,
            {
                let cand = members[t].clone();
                let ghost kept0 = kept@;
                let mut seen = false;
                let kn = kept.len();
                let mut k: usize = 0;
                while k < kn
                    invariant
                        k <= kn,
                        kn == kept@.len(),
                        kept@ == kept0,
                        cand@ == members0[t as int]@,
                        t < m,
                        m == members0.len(),
                        seen == exists|q: int|
                            0 <= q < k && kept@[q]@.individual.genome
                                == cand@.individual.genome,
                    decreases kn - k,
                {
                    let same = kept[k].genome() == cand.genome();
                    proof {
                        if same {
                            assert(kept@[k as int]@.individual.genome =~= cand@.individual.genome);
                        } else {
                            assert(kept@[k as int]@.individual.genome
                                != cand@.individual.genome) by {
                                if kept@[k as int]@.individual.genome == cand@.individual.genome {
                                    assert(kept@[k as int]@.individual.genome
                                        =~= cand@.individual.genome);
                                }
                            }
                        }
                    }
                    if same {
                        seen = true;
                    }
                    k = k + 1;
                }
                proof {
                    assert(cand@ == population.member_at(t as int));
                }
                if !seen {
                    kept.push(cand);
                }
                proof {
                    if seen {
                        let q = choose|q: int|
                            0 <= q < kept0.len() && kept0[q]@.individual.genome
                                == cand@.individual.genome;
                        reps = reps.insert(t as int, q);
                    } else {
                        reps = reps.insert(t as int, kept@.len() - 1);
                        assert(kept@[kept@.len() - 1]@.individual.genome
                            == members0[t as int]@.individual.genome);
                    }
                }
                t = t + 1;
            }
            members = kept;
        }
        let ghost ms1 = members@;
        proof {
            // every pre-sort member is a member of the population, and under
            // genome-determined fitness one of them carries the maximum
            assert(forall|k: int|
                0 <= k < ms1.len() ==> population.spec_has_member(#[trigger] ms1[k]@));
            if population.spec_individuals().len() >= 1 && genome_determines_fitness(
                &population,
            ) {
                lemma_seq_max(fv);
                let w = choose|w: int| 0 <= w < fv.len() && #[trigger] fv[w] == seq_max(fv);
                assert(members0[w]@ == population.member_at(w));
                if self.spec_remove_duplicates() {
                    let k = reps[w];
                    assert(members0[w]@.individual.genome == ms1[k]@.individual.genome);
                    let j = choose|j: int|
                        0 <= j < population.spec_individuals().len() && ms1[k]@
                            == population.member_at(j);
                    assert(population.spec_individuals()[j]@.genome
                        == population.spec_individuals()[w]@.genome);
                    assert(fv[j] == fv[w]);
                    assert(ms1[k]@.fitness == seq_max(fv));
                } else {
                    assert(ms1[w]@.fitness == seq_max(fv));
                }
                assert(exists|k: int| 0 <= k < ms1.len() && #[trigger] ms1[k]@.fitness == seq_max(fv));
            }
        }
        members.sort_by_fitness();
        let ghost sorted_full = members@;
        proof {
            lemma_multiset_members(ms1, sorted_full);
            lemma_multiset_members(sorted_full, ms1);
        }
        members.truncate(limit);
        let ghost sorted = members@;
        let m2 = members.len();
        let mut r: Vec<Individual> = Vec::new();
        let mut i: usize = 0;
        while i < m2
            invariant
                i <= m2,
                m2 == members@.len(),
                members@ == sorted,
                r@.len() == i,
                forall|k: int| 0 <= k < i ==> #[trigger] r@[k]@ == sorted[k]@.individual,
            decreases m2 - i,
        {
            let mem = members[i].clone();
            r.push(mem.into_individual());
            i = i + 1;
        }
        proof {
            assert forall|i: int| 0 <= i < r@.len() implies (exists|j: int|
                0 <= j < population.spec_individuals().len() && #[trigger] r@[i]@
                    == population.spec_individuals()[j]@) by {
                assert(sorted[i] == sorted_full[i]);
                assert(ms1.contains(sorted_full[i]));
                let k = choose|k: int| 0 <= k < ms1.len() && ms1[k] == sorted[i];
                let j = choose|j: int|
                    0 <= j < population.spec_individuals().len() && ms1[k]@
                        == population.member_at(j);
                assert(r@[i]@ == population.spec_individuals()[j]@);
            }
            if population.spec_individuals().len() >= 1 && population.spec_size_limit() >= 1
                && genome_determines_fitness(&population) {
                let kmax = choose|k: int|
                    0 <= k < ms1.len() && #[trigger] ms1[k]@.fitness == seq_max(fv);
                assert(sorted_full.contains(ms1[kmax]));
                let q = choose|q: int|
                    0 <= q < sorted_full.len() && sorted_full[q] == ms1[kmax];
                assert(sorted_full[0]@.fitness >= seq_max(fv));
                // the front of the ranking is itself a member, so it cannot
                // exceed the maximum
                assert(ms1.contains(sorted_full[0]));
                let k0 = choose|k0: int| 0 <= k0 < ms1.len() && ms1[k0] == sorted_full[0];
                let j0 = choose|j0: int|
                    0 <= j0 < population.spec_individuals().len() && ms1[k0]@
                        == population.member_at(j0);
                lemma_seq_max(fv);
                assert(fv[j0] <= seq_max(fv));
                assert(sorted_full[0]@.fitness == seq_max(fv));
                assert(sorted[0] == sorted_full[0]);
                assert(r@[0]@ == population.spec_individuals()[j0]@);
                assert(fv[j0] == seq_max(fv));
            }
            // the whole pipeline, witnessed: member list, deduplicated list,
            // descending ranking
            if self.spec_remove_duplicates() {
                assert forall|u: int| 0 <= u < members0.len() implies #[trigger] genome_covered_at(
                    members0,
                    ms1,
                    u,
                ) by {
                    assert(0 <= reps[u] < ms1.len() && members0[u]@.individual.genome
                        == ms1[reps[u]]@.individual.genome);
                }
            } else {
                assert(ms1 == members0);
            }
            assert forall|i: int| 0 <= i < r@.len() implies #[trigger] r@[i]@
                == sorted_full[i]@.individual by {
                assert(sorted[i] == sorted_full[i]);
            }
            assert(survivor_outcome(
                &population,
                old(self).spec_remove_duplicates(),
                members0,
                ms1,
                sorted_full,
                r@,
            ));
        }
        r
    }
}

} // verus!
