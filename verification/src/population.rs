//! Populations: a bounded working set of evaluated individuals with their
//! derived fitness values.

use vstd::prelude::*;
use crate::individual::{Individual, IndividualView, scores_of};
use crate::fitness::{EvaluateFitness, seq_max};

verus! {

broadcast use vstd::seq_lib::group_to_multiset_ensures;

/// A member: an individual paired with the fitness value it holds in its
/// population. Members carry owned snapshots, so they can be reordered and
/// selected freely.
pub struct Member {
    pub individual: Individual,
    fitness: i64,
}

pub ghost struct MemberView {
    pub individual: IndividualView,
    pub fitness: int,
}

impl View for Member {
    type V = MemberView;

    closed spec fn view(&self) -> MemberView {
        MemberView { individual: self.individual@, fitness: self.fitness as int }
    }
}

impl Clone for Member {
    fn clone(&self) -> (r: Self)
        ensures
            r@ == self@,
    {
        Member { individual: self.individual.clone(), fitness: self.fitness }
    }
}

impl Member {
    /// The objective value of the member's individual.
    pub fn objective_value(&self) -> (r: i64)
        ensures
            r as int == self@.individual.raw_score,
    {
        self.individual.objective_value()
    }

    /// The fitness value of this member in its population.
    pub fn fitness_value(&self) -> (r: i64)
        ensures
            r as int == self@.fitness,
    {
        self.fitness
    }

    /// Give up the member view and keep its individual.
    pub fn into_individual(self) -> (r: Individual)
        ensures
            r@ == self@.individual,
    {
        self.individual
    }

    /// The genome of the member's individual.
    pub fn genome(&self) -> (g: &crate::encoding::Binary)
        ensures
            g@ == self@.individual.genome,
    {
        self.individual.genome()
    }
}

/// The first index carrying the largest fitness value.
pub open spec fn first_max_index(s: Seq<int>) -> int
    decreases s.len(),
{
    if s.len() <= 1 {
        0
    } else {
        let k = first_max_index(s.drop_last());
        if s.last() > s[k] {
            s.len() - 1
        } else {
            k
        }
    }
}

pub proof fn lemma_first_max_index(s: Seq<int>)
    requires
        s.len() > 0,
    ensures
        0 <= first_max_index(s) < s.len(),
        forall|j: int| 0 <= j < s.len() ==> #[trigger] s[j] <= s[first_max_index(s)],
        forall|j: int| 0 <= j < first_max_index(s) ==> #[trigger] s[j] < s[first_max_index(s)],
    decreases s.len(),
{
    if s.len() > 1 {
        lemma_first_max_index(s.drop_last());
        assert forall|j: int| 0 <= j < s.len() implies #[trigger] s[j] <= s[first_max_index(s)] by {
            if j < s.len() - 1 {
                assert(s.drop_last()[j] == s[j]);
            }
        }
        assert forall|j: int| 0 <= j < first_max_index(s) implies #[trigger] s[j] < s[first_max_index(
            s,
        )] by {
            assert(s.drop_last()[j] == s[j]);
            if first_max_index(s) < s.len() - 1 {
                assert(s.drop_last()[first_max_index(s)] == s[first_max_index(s)]);
            }
        }
    }
}

/// Members in descending order of fitness.
pub open spec fn sorted_desc(s: Seq<Member>) -> bool {
    forall|i: int, j: int| 0 <= i < j < s.len() ==> s[i]@.fitness >= s[j]@.fitness
}

/// `sorted` is `orig` reordered by the index list `pi` (a permutation),
/// descending by fitness and stable: members of equal fitness keep their
/// original relative order.
pub open spec fn stable_sort_permutation(
    orig: Seq<Member>,
    sorted: Seq<Member>,
    pi: Seq<int>,
) -> bool {
    &&& pi.len() == sorted.len()
    &&& sorted.len() == orig.len()
    &&& (forall|k: int| 0 <= k < pi.len() ==> 0 <= #[trigger] pi[k] < orig.len())
    &&& (forall|a: int, b: int| 0 <= a < b < pi.len() ==> pi[a] != pi[b])
    &&& (forall|k: int| 0 <= k < pi.len() ==> sorted[k] == orig[#[trigger] pi[k]])
    &&& (forall|a: int, b: int|
        0 <= a < b < sorted.len() && sorted[a]@.fitness == sorted[b]@.fitness ==> pi[a] < pi[b])
}

/// `after` holds the leading members of a descending-by-fitness reordering
/// `ranked` of `before`'s member list `ms`: whoever was removed ranked at
/// or below everyone kept.
pub open spec fn survival_ranking(
    before: Population,
    after: Population,
    ms: Seq<Member>,
    ranked: Seq<Member>,
) -> bool {
    &&& ms.len() == before.spec_individuals().len()
    &&& (forall|i: int| 0 <= i < ms.len() ==> #[trigger] ms[i]@ == before.member_at(i))
    &&& ranked.to_multiset() == ms.to_multiset()
    &&& sorted_desc(ranked)
    &&& after.spec_individuals().len() <= ranked.len()
    &&& (forall|i: int|
        0 <= i < after.spec_individuals().len() ==> #[trigger] after.member_at(i) == ranked[i]@)
}

/// Sorting a list of members by fitness, best first.
pub trait SortMember {
    fn sort_by_fitness(&mut self);
}

/// Find the first index carrying the largest fitness.
fn index_of_best(v: &Vec<Member>) -> (k: usize)
    requires
        v@.len() > 0,
    ensures
        k < v@.len(),
        forall|j: int| 0 <= j < v@.len() ==> v@[j]@.fitness <= v@[k as int]@.fitness,
        k == first_max_index(member_fitness(v@)),
{
    let mut k: usize = 0;
    let mut i: usize = 1;
    let n = v.len();
    proof {
        assert(member_fitness(v@).take(1) =~= member_fitness(v@.take(1)));
    }
    while i < n
        invariant
            k < i <= n,
            n == v@.len(),
            forall|j: int| 0 <= j < i ==> v@[j]@.fitness <= v@[k as int]@.fitness,
            k == first_max_index(member_fitness(v@).take(i as int)),
        decreases n - i,
    {
        proof {
            assert(member_fitness(v@).take(i + 1).drop_last() =~= member_fitness(v@).take(
                i as int,
            ));
            assert(member_fitness(v@).take(i + 1).last() == v@[i as int]@.fitness);
            assert(member_fitness(v@).take(i as int)[k as int] == v@[k as int]@.fitness);
        }
        if v[i].fitness_value() > v[k].fitness_value() {
            k = i;
        }
        i = i + 1;
    }
    proof {
        assert(member_fitness(v@).take(n as int) =~= member_fitness(v@));
    }
    k
}

/// The fitness values of a list of members, in order.
pub open spec fn member_fitness(ms: Seq<Member>) -> Seq<int> {
    Seq::new(ms.len(), |i: int| ms[i]@.fitness)
}

impl SortMember for Vec<Member> {
    /// Sort members by fitness, the best first. The result is a stable
    /// permutation of the input: nothing is added, dropped or rescored, and
    /// members of equal fitness keep their relative order.
    fn sort_by_fitness(&mut self)
        ensures
            final(self)@.to_multiset() == old(self)@.to_multiset(),
            final(self)@.len() == old(self)@.len(),
            sorted_desc(final(self)@),
            exists|pi: Seq<int>| stable_sort_permutation(old(self)@, final(self)@, pi),
    {
        let ghost orig = self@;
        // `rem[j]` is the original position of the j-th remaining member,
        // `pi[k]` the original position of the k-th placed member
        let ghost mut rem: Seq<int> = Seq::new(orig.len(), |j: int| j);
        let ghost mut pi: Seq<int> = Seq::empty();
        let mut out: Vec<Member> = Vec::new();
        proof {
            assert(out@.to_multiset().add(self@.to_multiset()) =~= orig.to_multiset());
        }
        while self.len() > 0
            invariant
                out@.to_multiset().add(self@.to_multiset()) == orig.to_multiset(),
                out@.len() + self@.len() == orig.len(),
                sorted_desc(out@),
                forall|j: int|
                    0 <= j < self@.len() && out@.len() > 0 ==> self@[j]@.fitness
                        <= out@[out@.len() - 1]@.fitness,
                rem.len() == self@.len(),
                pi.len() == out@.len(),
                forall|j: int| 0 <= j < rem.len() ==> 0 <= #[trigger] rem[j] < orig.len(),
                forall|k: int| 0 <= k < pi.len() ==> 0 <= #[trigger] pi[k] < orig.len(),
                forall|j: int| 0 <= j < rem.len() ==> self@[j] == orig[#[trigger] rem[j]],
                forall|k: int| 0 <= k < pi.len() ==> out@[k] == orig[#[trigger] pi[k]],
                forall|a: int, b: int| 0 <= a < b < rem.len() ==> rem[a] < rem[b],
                forall|a: int, b: int| 0 <= a < b < pi.len() ==> pi[a] != pi[b],
                forall|a: int, j: int|
                    #![trigger pi[a], rem[j]]
                    0 <= a < pi.len() && 0 <= j < rem.len() ==> pi[a] != rem[j],
                forall|a: int, b: int|
                    0 <= a < b < pi.len() && out@[a]@.fitness == out@[b]@.fitness ==> pi[a] < pi[b],
                forall|a: int, j: int|
                    #![trigger pi[a], rem[j]]
                    0 <= a < pi.len() && 0 <= j < rem.len() && out@[a]@.fitness
                        == self@[j]@.fitness ==> pi[a] < rem[j],
            decreases self@.len(),
        {
            let k = index_of_best(self);
            let ghost before = self@;
            let ghost rem0 = rem;
            let ghost pi0 = pi;
            proof {
                lemma_first_max_index(member_fitness(before));
                pi = pi.push(rem[k as int]);
                rem = rem.remove(k as int);
            }
            let x = self.remove(k);
            out.push(x);
            proof {
                assert(before.to_multiset().count(x) >= 1) by {
                    assert(before.contains(x));
                }
                assert(out@.to_multiset().add(self@.to_multiset()) =~= orig.to_multiset());
                assert forall|j: int|
                    0 <= j < self@.len() implies self@[j]@.fitness <= out@[out@.len()
                    - 1]@.fitness by {
                    if j < k {
                        assert(self@[j] == before[j]);
                    } else {
                        assert(self@[j] == before[j + 1]);
                    }
                }
                // positions shift across the removal; fitness strictly
                // below the first maximum rules equal fitness out before it
                assert forall|j: int| 0 <= j < rem.len() implies self@[j] == orig[#[trigger] rem[j]]
                    && rem[j] == (if j < k {
                    rem0[j]
                } else {
                    rem0[j + 1]
                }) by {
                    if j < k {
                        assert(self@[j] == before[j]);
                    } else {
                        assert(self@[j] == before[j + 1]);
                    }
                }
                assert forall|j: int|
                    0 <= j < before.len() implies before[j]@.fitness == member_fitness(before)[j] by {
                }
                assert forall|a: int, j: int|
                    #![trigger pi[a], rem[j]]
                    0 <= a < pi.len() && 0 <= j < rem.len() && out@[a]@.fitness
                        == self@[j]@.fitness implies pi[a] < rem[j] by {
                    if a < pi0.len() {
                        assert(pi[a] == pi0[a]);
                    } else {
                        // the new element: any remaining equal-fitness
                        // member sat after position k, else it would have
                        // been the first maximum
                        assert(pi[a] == rem0[k as int]);
                        if j < k {
                            assert(member_fitness(before)[j] < member_fitness(before)[k as int]);
                            assert(before[j]@.fitness < before[k as int]@.fitness);
                        } else {
                            assert(rem[j] == rem0[j + 1]);
                            assert(rem0[k as int] < rem0[j + 1]);
                        }
                    }
                }
            }
        }
        proof {
            assert(rem.len() == 0);
        }
        *self = out;
        proof {
            assert(stable_sort_permutation(orig, self@, pi));
        }
    }
}

/// A population: an ordered list of individuals, the parallel list of their
/// fitness values, and the size limit that survival prunes back to.
pub struct Population {
    individuals: Vec<Individual>,
    size_limit: usize,
    fitness_values: Vec<i64>,
}

impl Clone for Population {
    fn clone(&self) -> (r: Self)
        ensures
            r.spec_individuals().len() == self.spec_individuals().len(),
            forall|i: int|
                0 <= i < r.spec_individuals().len() ==> #[trigger] r.spec_individuals()[i]@
                    == self.spec_individuals()[i]@,
            r.spec_fitness_values() == self.spec_fitness_values(),
            r.spec_size_limit() == self.spec_size_limit(),
    {
        let n = self.individuals.len();
        let mut individuals: Vec<Individual> = Vec::new();
        let mut i: usize = 0;
        while i < n
            invariant
                i <= n,
                n == self.individuals@.len(),
                individuals@.len() == i,
                forall|k: int|
                    0 <= k < i ==> #[trigger] individuals@[k]@ == self.individuals@[k]@,
            decreases n - i,
        {
            individuals.push(self.individuals[i].clone());
            i = i + 1;
        }
        let m = self.fitness_values.len();
        let mut fitness_values: Vec<i64> = Vec::new();
        let mut j: usize = 0;
        while j < m
            invariant
                j <= m,
                m == self.fitness_values@.len(),
                fitness_values@.len() == j,
                forall|k: int| 0 <= k < j ==> fitness_values@[k] == self.fitness_values@[k],
            decreases m - j,
        {
            fitness_values.push(self.fitness_values[j]);
            j = j + 1;
        }
        let r = Population { individuals, size_limit: self.size_limit, fitness_values };
        proof {
            assert(r.spec_fitness_values() =~= self.spec_fitness_values());
        }
        r
    }
}

impl Population {
    /// The individuals of the population, for specifications.
    pub closed spec fn spec_individuals(&self) -> Seq<Individual> {
        self.individuals@
    }

    /// The fitness values of the population, for specifications.
    pub closed spec fn spec_fitness_values(&self) -> Seq<int> {
        Seq::new(self.fitness_values@.len(), |i: int| self.fitness_values@[i] as int)
    }

    /// The size limit, for specifications.
    pub closed spec fn spec_size_limit(&self) -> int {
        self.size_limit as int
    }

    /// Fitness values and individuals stay index-aligned.
    pub open spec fn wf(&self) -> bool {
        self.spec_individuals().len() == self.spec_fitness_values().len()
    }

    /// The member view this population holds at index `i`.
    pub open spec fn member_at(&self, i: int) -> MemberView {
        MemberView {
            individual: self.spec_individuals()[i]@,
            fitness: self.spec_fitness_values()[i],
        }
    }

    /// Whether `m` is one of this population's members.
    pub open spec fn spec_has_member(&self, m: MemberView) -> bool {
        exists|i: int| 0 <= i < self.spec_individuals().len() && m == #[trigger] self.member_at(i)
    }

    /// Every recorded fitness value is a 64-bit value.
    pub proof fn lemma_fitness_values_bounded(&self)
        ensures
            forall|i: int|
                0 <= i < self.spec_fitness_values().len() ==> -0x8000_0000_0000_0000
                    <= #[trigger] self.spec_fitness_values()[i] < 0x8000_0000_0000_0000,
    {
    }

    /// Return a list of individuals in this population.
    pub fn individuals(&self) -> (r: &Vec<Individual>)
        ensures
            r@ == self.spec_individuals(),
    {
        &self.individuals
    }

    /// Return population size.
    pub fn size(&self) -> (n: usize)
        ensures
            n == self.spec_individuals().len(),
    {
        self.individuals.len()
    }

    /// Return true if there are more individuals than the size limit allows.
    pub fn is_oversized(&self) -> (r: bool)
        ensures
            r == (self.spec_individuals().len() > self.spec_size_limit()),
    {
        self.individuals.len() > self.size_limit
    }

    /// Return the population size limit.
    pub fn size_limit(&self) -> (n: usize)
        ensures
            n as int == self.spec_size_limit(),
    {
        self.size_limit
    }

    /// Re-evaluate the fitness values of the population with `fitness`.
    pub fn evaluate_with<F: EvaluateFitness>(&mut self, fitness: &mut F)
        requires
            old(self).wf(),
            old(fitness).fit_ok(scores_of(old(self).spec_individuals())),
        ensures
            final(self).wf(),
            final(self).spec_individuals() == old(self).spec_individuals(),
            final(self).spec_size_limit() == old(self).spec_size_limit(),
            final(self).spec_fitness_values() =~= old(fitness).spec_fitness(
                scores_of(old(self).spec_individuals()),
            ),
            forall|s: Seq<int>| #[trigger] final(fitness).fit_ok(s) == old(fitness).fit_ok(s),
            forall|a: int, b: int|
                #[trigger] final(fitness).prefers(a, b) == old(fitness).prefers(a, b),
    {
        proof {
            old(fitness).lemma_fitness_len(scores_of(old(self).spec_individuals()));
        }
        self.fitness_values = fitness.evaluate(&self.individuals);
    }

    /// Build a population from individuals and a fitness policy. The size
    /// limit is set to the number of individuals given.
    pub fn build<F: EvaluateFitness>(indvs: Vec<Individual>, fitness: &mut F) -> (r: Population)
        requires
            old(fitness).fit_ok(scores_of(indvs@)),
        ensures
            r.wf(),
            r.spec_individuals() == indvs@,
            r.spec_size_limit() == indvs@.len(),
            r.spec_fitness_values() =~= old(fitness).spec_fitness(scores_of(indvs@)),
            forall|s: Seq<int>| #[trigger] final(fitness).fit_ok(s) == old(fitness).fit_ok(s),
            forall|a: int, b: int|
                #[trigger] final(fitness).prefers(a, b) == old(fitness).prefers(a, b),
    {
        proof {
            old(fitness).lemma_fitness_len(scores_of(indvs@));
        }
        let nlimit = indvs.len();
        let fitness_values = fitness.evaluate(&indvs);
        Population { individuals: indvs, fitness_values, size_limit: nlimit }
    }

    /// Replace the population size limit.
    pub fn with_size_limit(self, limit: usize) -> (r: Self)
        ensures
            r.spec_individuals() == self.spec_individuals(),
            r.spec_fitness_values() == self.spec_fitness_values(),
            r.spec_size_limit() == limit as int,
    {
        Population { size_limit: limit, ..self }
    }

    /// Return the members of this population: each individual paired with
    /// its fitness value, in order.
    pub fn members(&self) -> (r: Vec<Member>)
        requires
            self.wf(),
        ensures
            r@.len() == self.spec_individuals().len(),
            forall|i: int| 0 <= i < r@.len() ==> #[trigger] r@[i]@ == self.member_at(i),
    {
        let n = self.individuals.len();
        let mut r: Vec<Member> = Vec::new();
        let mut i: usize = 0;
        while i < n
            invariant
                i <= n,
                self.wf(),
                n == self.spec_individuals().len(),
                r@.len() == i,
                forall|k: int| 0 <= k < i ==> #[trigger] r@[k]@ == self.member_at(k),
            decreases n - i,
        {
            let individual = self.individuals[i].clone();
            let fitness = self.fitness_values[i];
            r.push(Member { individual, fitness });
            i = i + 1;
        }
        r
    }

    /// Return the best member of this population: the first one carrying
    /// the largest fitness value, or nothing if the population is empty.
    pub fn best_member(&self) -> (r: Option<Member>)
        requires
            self.wf(),
        ensures
            match r {
                Option::None => self.spec_individuals().len() == 0,
                Option::Some(m) => {
                    &&& m@ == self.member_at(first_max_index(self.spec_fitness_values()))
                    &&& self.spec_has_member(m@)
                    &&& forall|j: int|
                        0 <= j < self.spec_individuals().len()
                            ==> #[trigger] self.spec_fitness_values()[j] <= m@.fitness
                },
            },
    {
        let n = self.individuals.len();
        if n == 0 {
            return Option::None;
        }
        let members = self.members();
        let k = index_of_best(&members);
        let m = members[k].clone();
        proof {
            assert(member_fitness(members@) =~= self.spec_fitness_values());
            assert(m@ == self.member_at(k as int));
            assert forall|j: int|
                0 <= j < self.spec_individuals().len()
                    implies #[trigger] self.spec_fitness_values()[j] <= m@.fitness by {
                assert(members@[j]@ == self.member_at(j));
            }
        }
        Option::Some(m)
    }

    /// Remove the worst performing individuals so that the population fits
    /// its size limit again. Returns the number of individuals removed.
    ///
    /// Every survivor was a member before, with the same fitness value, and
    /// a member with the largest fitness survives whenever the limit allows
    /// anything to survive.
    pub fn survive(&mut self) -> (removed: usize)
        requires
            old(self).wf(),
        ensures
            final(self).wf(),
            final(self).spec_size_limit() == old(self).spec_size_limit(),
            final(self).spec_individuals().len() == if old(self).spec_individuals().len() > old(
                self,
            ).spec_size_limit() {
                old(self).spec_size_limit()
            } else {
                old(self).spec_individuals().len() as int
            },
            removed == old(self).spec_individuals().len() - final(self).spec_individuals().len(),
            forall|i: int|
                0 <= i < final(self).spec_individuals().len() ==> old(self).spec_has_member(
                    #[trigger] final(self).member_at(i),
                ),
            old(self).spec_individuals().len() <= old(self).spec_size_limit() ==> *final(self)
                == *old(self),
            (old(self).spec_individuals().len() > old(self).spec_size_limit()
                && final(self).spec_individuals().len() > 0) ==> (final(self).member_at(0).fitness
                == seq_max(old(self).spec_fitness_values()) && forall|j: int|
                0 <= j < final(self).spec_individuals().len()
                    ==> #[trigger] final(self).spec_fitness_values()[j] <= final(self).member_at(
                    0,
                ).fitness),
            // the survivors are the best: they lead some descending-sorted
            // reordering of the old members, in that order
            old(self).spec_individuals().len() > old(self).spec_size_limit() ==> (exists|
                ms: Seq<Member>,
                ranked: Seq<Member>,
            | survival_ranking(*old(self), *final(self), ms, ranked)),
            old(self).spec_individuals().len() > old(self).spec_size_limit() ==> (forall|
                i: int,
                j: int,
            |
                0 <= i < j < final(self).spec_individuals().len()
                    ==> final(self).spec_fitness_values()[i]
                    >= final(self).spec_fitness_values()[j]),
    {
        if !self.is_oversized() {
            return 0;
        }
        let n_old = self.size();
        let mut members = self.members();
        let ghost members0 = members@;
        members.sort_by_fitness();
        let ghost sorted_full = members@;
        proof {
            lemma_multiset_members(members0, sorted_full);
            lemma_multiset_members(sorted_full, members0);
        }
        members.truncate(self.size_limit);
        let ghost sorted = members@;
        let mut indvs: Vec<Individual> = Vec::new();
        let mut values: Vec<i64> = Vec::new();
        let m = members.len();
        let mut i: usize = 0;
        while i < m
            invariant
                i <= m,
                m == members@.len(),
                indvs@.len() == i,
                values@.len() == i,
                forall|k: int|
                    0 <= k < i ==> #[trigger] indvs@[k]@ == members@[k]@.individual && values@[k]
                        as int == members@[k]@.fitness,
            decreases m - i,
        {
            let mem = members[i].clone();
            let Member { individual, fitness } = mem;
            indvs.push(individual);
            values.push(fitness);
            i = i + 1;
        }
        proof {
            // every kept member was a member of the population before
            assert forall|i: int| 0 <= i < sorted.len() implies old(self).spec_has_member(
                MemberView { individual: indvs@[i]@, fitness: values@[i] as int },
            ) by {
                assert(sorted[i] == sorted_full[i]);
                assert(members0.contains(sorted_full[i]));
                let j = choose|j: int| 0 <= j < members0.len() && members0[j] == sorted[i];
                assert(members0[j]@ == old(self).member_at(j));
                assert(MemberView { individual: indvs@[i]@, fitness: values@[i] as int }
                    == old(self).member_at(j));
            }
            // a member with the largest fitness leads the survivors
            if sorted.len() > 0 {
                let fv = old(self).spec_fitness_values();
                assert forall|j: int| 0 <= j < fv.len() implies #[trigger] fv[j]
                    <= sorted_full[0]@.fitness by {
                    assert(members0[j]@ == old(self).member_at(j));
                    assert(sorted_full.contains(members0[j]));
                    let k = choose|k: int|
                        0 <= k < sorted_full.len() && sorted_full[k] == members0[j];
                    assert(sorted_full[0]@.fitness >= sorted_full[k]@.fitness);
                }
                crate::fitness::lemma_seq_max(fv);
                let w = choose|w: int| 0 <= w < fv.len() && #[trigger] fv[w] == seq_max(fv);
                assert(members0.contains(sorted_full[0]));
                let j0 = choose|j0: int|
                    0 <= j0 < members0.len() && members0[j0] == sorted_full[0];
                assert(members0[j0]@ == old(self).member_at(j0));
                assert(sorted_full[0]@.fitness <= seq_max(fv));
                assert(sorted[0]@.fitness == seq_max(fv));
                assert(values@[0] as int == seq_max(fv));
            }
        }
        self.individuals = indvs;
        self.fitness_values = values;
        proof {
            assert forall|i: int| 0 <= i < self.spec_individuals().len() implies #[trigger] self.member_at(
                i,
            ) == sorted_full[i]@ by {
                assert(sorted[i] == sorted_full[i]);
                assert(self.member_at(i) == MemberView {
                    individual: indvs@[i]@,
                    fitness: values@[i] as int,
                });
            }
            assert(survival_ranking(*old(self), *self, members0, sorted_full));
            assert forall|i: int, j: int|
                0 <= i < j < self.spec_individuals().len() implies self.spec_fitness_values()[i]
                >= self.spec_fitness_values()[j] by {
                assert(self.member_at(i) == sorted_full[i]@);
                assert(self.member_at(j) == sorted_full[j]@);
            }
        }
        n_old - self.size()
    }
}

/// If two member lists carry the same multiset, every element of the one
/// appears in the other.
pub(crate) proof fn lemma_multiset_members(a: Seq<Member>, b: Seq<Member>)
    requires
        a.to_multiset() == b.to_multiset(),
    ensures
        forall|i: int| 0 <= i < b.len() ==> a.contains(#[trigger] b[i]),
        a.len() == b.len(),
{
    assert(a.to_multiset().len() == a.len());
    assert(b.to_multiset().len() == b.len());
    assert forall|i: int| 0 <= i < b.len() implies a.contains(#[trigger] b[i]) by {
        assert(b.contains(b[i]));
        assert(b.to_multiset().count(b[i]) > 0);
        assert(a.to_multiset().count(b[i]) > 0);
    }
}

} // verus!
