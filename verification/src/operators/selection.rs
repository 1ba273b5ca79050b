//! Selection operators: choosing parent members from a population.

use vstd::prelude::*;
use crate::population::{Population, Member, SortMember, sorted_desc, member_fitness,
    lemma_multiset_members};
use crate::fitness::seq_sum;
use super::SelectionOperator;

verus! {

broadcast use vstd::seq_lib::group_to_multiset_ensures;

/// Select members from the population at random.
#[derive(Clone)]
pub struct RandomSelection {
    n: usize,
    allow_repetition: bool,
}

impl RandomSelection {
    /// How many members one call selects, for specifications.
    pub closed spec fn spec_n(&self) -> int {
        self.n as int
    }

    /// Whether one member may be selected repeatedly, for specifications.
    pub closed spec fn spec_allow_repetition(&self) -> bool {
        self.allow_repetition
    }

    /// Select `n` members, repetition allowed.
    pub fn new(n: usize) -> (r: Self)
        ensures
            r.spec_n() == n,
            r.spec_allow_repetition(),
    {
        RandomSelection { n, allow_repetition: true }
    }
}

impl SelectionOperator for RandomSelection {
    open spec fn sel_ok(&self, p: &Population) -> bool {
        p.spec_individuals().len() > 0
    }

    open spec fn sel_count(&self, p: &Population) -> int {
        if self.spec_allow_repetition() {
            self.spec_n()
        } else if self.spec_n() <= p.spec_individuals().len() {
            self.spec_n()
        } else {
            p.spec_individuals().len() as int
        }
    }

    /// Draw members uniformly, with or without repetition.
    fn select_from(&self, population: &Population, rng: &mut rand::rngs::StdRng) -> (r: Vec<
        Member,
    >) {
        let members = population.members();
        let m = members.len();
        let mut selected: Vec<Member> = Vec::new();
        if self.allow_repetition {
            let mut t: usize = 0;
            while t < self.n
                invariant
                    t <= self.n,
                    m == members@.len(),
                    m == population.spec_individuals().len(),
                    m > 0,
                    forall|i: int| 0 <= i < m ==> #[trigger] members@[i]@ == population.member_at(i),
                    selected@.len() == t,
                    forall|i: int|
                        0 <= i < t ==> population.spec_has_member(#[trigger] selected@[i]@),
                decreases self.n - t,
            {
                let idx = crate::random::rand_below(rng, m);
                let chosen = members[idx].clone();
                proof {
                    assert(chosen@ == population.member_at(idx as int));
                }
                selected.push(chosen);
                t = t + 1;
            }
        } else {
            let mut indices: Vec<usize> = Vec::new();
            let mut i: usize = 0;
            while i < m
                invariant
                    i <= m,
                    indices@.len() == i,
                    forall|k: int| 0 <= k < i ==> indices@[k] == k,
                decreases m - i,
            {
                indices.push(i);
                i = i + 1;
            }
            let chosen = crate::random::choose_multiple_usize(rng, &indices, self.n);
            let c = chosen.len();
            let mut t: usize = 0;
            while t < c
                invariant
                    t <= c,
                    c == chosen@.len(),
                    m == members@.len(),
                    m == population.spec_individuals().len(),
                    indices@.len() == m,
                    forall|k: int| 0 <= k < m ==> indices@[k] == k,
                    forall|k: int| 0 <= k < c ==> indices@.contains(#[trigger] chosen@[k]),
                    forall|i: int| 0 <= i < m ==> #[trigger] members@[i]@ == population.member_at(i),
                    selected@.len() == t,
                    forall|i: int|
                        0 <= i < t ==> population.spec_has_member(#[trigger] selected@[i]@),
                decreases c - t,
            {
                let idx = chosen[t];
                proof {
                    let k = choose|k: int| 0 <= k < indices@.len() && indices@[k] == idx;
                    assert(idx < m);
                }
                let picked = members[idx].clone();
                proof {
                    assert(picked@ == population.member_at(idx as int));
                }
                selected.push(picked);
                t = t + 1;
            }
        }
        selected
    }
}

/// `r` holds the leading members of a descending-by-fitness reordering
/// `ranked` of `p`'s member list `ms`: the selected are the best, and every
/// member not selected ranks at or below every selected one.
pub open spec fn ranked_selection(
    p: &Population,
    ms: Seq<Member>,
    ranked: Seq<Member>,
    r: Seq<Member>,
) -> bool {
    &&& ms.len() == p.spec_individuals().len()
    &&& (forall|i: int| 0 <= i < ms.len() ==> #[trigger] ms[i]@ == p.member_at(i))
    &&& ranked.to_multiset() == ms.to_multiset()
    &&& sorted_desc(ranked)
    &&& r.len() <= ranked.len()
    &&& (forall|i: int| 0 <= i < r.len() ==> #[trigger] r[i] == ranked[i])
}

/// Select a limited number of the fittest members.
#[derive(Clone)]
pub struct ElitistSelection {
    n: usize,
}

impl ElitistSelection {
    /// How many members one call selects, for specifications.
    pub closed spec fn spec_n(&self) -> int {
        self.n as int
    }

    /// Select the `n` best members.
    pub fn new(n: usize) -> (r: Self)
        ensures
            r.spec_n() == n,
    {
        ElitistSelection { n }
    }
}

impl SelectionOperator for ElitistSelection {
    open spec fn sel_ok(&self, p: &Population) -> bool {
        self.spec_n() <= p.spec_individuals().len()
    }

    open spec fn sel_count(&self, p: &Population) -> int {
        self.spec_n()
    }

    /// Return exactly the `n` fittest members, best first: the head of a
    /// descending-by-fitness reordering of the population's member list,
    /// nothing fabricated and nobody better left behind. Deterministic: the
    /// random source is never touched.
    fn select_from(&self, population: &Population, rng: &mut rand::rngs::StdRng) -> (r: Vec<
        Member,
    >)
        ensures
            sorted_desc(r@),
            exists|ms: Seq<Member>, ranked: Seq<Member>|
                ranked_selection(population, ms, ranked, r@),
            *final(rng) == *old(rng),
    {
        let mut members = population.members();
        let ghost members0 = members@;
        members.sort_by_fitness();
        proof {
            lemma_multiset_members(members0, members@);
        }
        let ghost sorted_full = members@;
        members.truncate(self.n);
        proof {
            assert forall|i: int| 0 <= i < members@.len() implies population.spec_has_member(
                #[trigger] members@[i]@,
            ) by {
                assert(members@[i] == sorted_full[i]);
                assert(members0.contains(sorted_full[i]));
                let j = choose|j: int| 0 <= j < members0.len() && members0[j] == sorted_full[i];
                assert(members0[j]@ == population.member_at(j));
            }
            assert(ranked_selection(population, members0, sorted_full, members@));
        }
        members
    }
}

/// Fitness proportionate selection: each draw picks a member with
/// probability proportional to its fitness, independently (weights are not
/// decremented), so one member may be chosen repeatedly.
#[derive(Clone)]
pub struct RouletteWheelSelection {
    n: usize,
}

impl RouletteWheelSelection {
    /// How many members one call selects, for specifications.
    pub closed spec fn spec_n(&self) -> int {
        self.n as int
    }

    /// Select `n` members by fitness-proportionate draws.
    pub fn new(n: usize) -> (r: Self)
        ensures
            r.spec_n() == n,
    {
        RouletteWheelSelection { n }
    }
}

impl SelectionOperator for RouletteWheelSelection {
    /// Every fitness value must be nonnegative and their sum positive; the
    /// population size is capped so that the fixed-width sums cannot
    /// overflow.
    open spec fn sel_ok(&self, p: &Population) -> bool {
        &&& 0 < p.spec_individuals().len() <= 0x10_0000
        &&& forall|i: int|
            0 <= i < p.spec_fitness_values().len() ==> #[trigger] p.spec_fitness_values()[i] >= 0
        &&& seq_sum(p.spec_fitness_values()) > 0
    }

    open spec fn sel_count(&self, p: &Population) -> int {
        self.spec_n()
    }

    /// Draw `n` members; a member with fitness zero is never drawn.
    fn select_from(&self, population: &Population, rng: &mut rand::rngs::StdRng) -> (r: Vec<
        Member,
    >)
        ensures
            forall|i: int| 0 <= i < r@.len() ==> #[trigger] r@[i]@.fitness > 0,
    {
        let ghost fv = population.spec_fitness_values();
        let members = population.members();
        let m = members.len();
        proof {
            assert(member_fitness(members@) =~= fv);
            population.lemma_fitness_values_bounded();
            crate::fitness::lemma_seq_sum_nonneg(fv);
            crate::fitness::lemma_seq_sum_upper(fv, 0x8000_0000_0000_0000);
            assert(fv.len() * 0x8000_0000_0000_0000 <= 0x8_0000_0000_0000_0000_0000)
                by (nonlinear_arith)
                requires
                    0 <= fv.len() <= 0x10_0000,
            ;
        }
        // total fitness
        let mut total: i128 = 0;
        let mut i: usize = 0;
        proof {
            assert(fv.take(0) =~= Seq::<int>::empty());
        }
        while i < m
            invariant
                i <= m,
                m == members@.len(),
                m == fv.len(),
                member_fitness(members@) == fv,
                forall|k: int| 0 <= k < m ==> #[trigger] fv[k] >= 0,
                forall|k: int| 0 <= k <= m ==> seq_sum(#[trigger] fv.take(k)) <= seq_sum(fv),
                seq_sum(fv) <= 0x8_0000_0000_0000_0000_0000,
                total as int == seq_sum(fv.take(i as int)),
                0 <= total as int <= seq_sum(fv),
            decreases m - i,
        {
            proof {
                assert(fv.take(i + 1).drop_last() =~= fv.take(i as int));
                assert(fv.take(i + 1).last() == fv[i as int]);
            }
            total = total + members[i].fitness_value() as i128;
            i = i + 1;
        }
        proof {
            assert(fv.take(m as int) =~= fv);
        }
        let mut selected: Vec<Member> = Vec::new();
        let mut t: usize = 0;
        while t < self.n
            invariant
                t <= self.n,
                m == members@.len(),
                m == fv.len(),
                m == population.spec_individuals().len(),
                m > 0,
                member_fitness(members@) == fv,
                forall|i: int| 0 <= i < m ==> #[trigger] members@[i]@ == population.member_at(i),
                forall|k: int| 0 <= k < m ==> #[trigger] fv[k] >= 0,
                forall|k: int| 0 <= k <= m ==> seq_sum(#[trigger] fv.take(k)) <= seq_sum(fv),
                total as int == seq_sum(fv),
                total > 0,
                selected@.len() == t,
                forall|i: int|
                    0 <= i < t ==> population.spec_has_member(#[trigger] selected@[i]@),
                forall|i: int| 0 <= i < t ==> #[trigger] selected@[i]@.fitness > 0,
            decreases self.n - t,
        {
            let draw = crate::random::rand_below_i128(rng, total);
            let mut i: usize = 0;
            let mut acc: i128 = members[0].fitness_value() as i128;
            proof {
                assert(fv.take(1).drop_last() =~= fv.take(0));
                assert(fv.take(0) =~= Seq::<int>::empty());
                assert(acc as int == seq_sum(fv.take(1)));
            }
            while acc <= draw
                invariant
                    i < m,
                    m == members@.len(),
                    m == fv.len(),
                    member_fitness(members@) == fv,
                    forall|k: int| 0 <= k < m ==> #[trigger] fv[k] >= 0,
                    forall|k: int| 0 <= k <= m ==> seq_sum(#[trigger] fv.take(k)) <= seq_sum(fv),
                    total as int == seq_sum(fv),
                    acc as int == seq_sum(fv.take(i + 1)),
                    i > 0 ==> seq_sum(fv.take(i as int)) <= draw as int,
                    draw < total,
                decreases m - i,
            {
                proof {
                    if i + 1 == m {
                        assert(fv.take(m as int) =~= fv);
                    }
                    assert(fv.take(i + 2).drop_last() =~= fv.take(i + 1));
                    assert(fv.take(i + 2).last() == fv[i + 1]);
                }
                i = i + 1;
                acc = acc + members[i].fitness_value() as i128;
            }
            proof {
                assert(i == 0 || seq_sum(fv.take(i as int)) <= draw as int);
                assert((draw as int) < seq_sum(fv.take(i + 1)));
                assert(fv.take(i + 1).drop_last() =~= fv.take(i as int));
                assert(fv[i as int] > 0);
            }
            let chosen = members[i].clone();
            proof {
                assert(chosen@ == population.member_at(i as int));
                assert(chosen@.fitness == fv[i as int]);
            }
            selected.push(chosen);
            t = t + 1;
        }
        selected
    }
}

/// The start of part `c` when `len` members are split into `n` parts whose
/// sizes differ by at most one: the first `len % n` parts take one member
/// more than the rest, so every member belongs to exactly one part.
pub open spec fn tournament_part_start(len: int, n: int, c: int) -> int {
    let base = len / n;
    let rem = len % n;
    c * base + (if c <= rem {
        c
    } else {
        rem
    })
}

proof fn lemma_tournament_part_start(len: int, n: int, c: int)
    requires
        1 <= n <= len,
        0 <= c <= n,
    ensures
        0 <= tournament_part_start(len, n, c) <= len,
        c < n ==> tournament_part_start(len, n, c) < tournament_part_start(len, n, c + 1),
        c < n ==> tournament_part_start(len, n, c + 1) <= len,
        c < n ==> tournament_part_start(len, n, c + 1) == tournament_part_start(len, n, c) + len
            / n + (if c < len % n {
            1int
        } else {
            0int
        }),
        tournament_part_start(len, n, n) == len,
{
    let base = len / n;
    let rem = len % n;
    vstd::arithmetic::div_mod::lemma_fundamental_div_mod(len, n);
    assert(base >= 1) by (nonlinear_arith)
        requires
            base == len / n,
            1 <= n <= len,
    ;
    assert(0 <= c * base + (if c <= rem {
        c
    } else {
        rem
    }) <= len && (c < n ==> (c + 1) * base + (if c + 1 <= rem {
        c + 1
    } else {
        rem
    }) <= len) && (c < n ==> (c + 1) * base + (if c + 1 <= rem {
        c + 1
    } else {
        rem
    }) == c * base + (if c <= rem {
        c
    } else {
        rem
    }) + base + (if c < rem {
        1int
    } else {
        0int
    })) && n * base + rem == len) by (nonlinear_arith)
        requires
            len == n * base + rem,
            0 <= rem < n,
            base >= 1,
            0 <= c <= n,
    ;
}

/// Winner `c` sits in part `c` of the shuffled order and carries the
/// largest fitness of that part.
pub open spec fn tournament_winner_at(
    len: int,
    n: int,
    shuffled: Seq<Member>,
    r: Seq<Member>,
    c: int,
) -> bool {
    exists|w: int|
        tournament_part_start(len, n, c) <= w < tournament_part_start(len, n, c + 1) && r[c]@
            == shuffled[w]@ && (forall|q: int|
            #![trigger shuffled[q]]
            tournament_part_start(len, n, c) <= q < tournament_part_start(len, n, c + 1)
                ==> shuffled[q]@.fitness <= shuffled[w]@.fitness)
}

/// `r` holds the winners of a tournament over `p`'s members: some
/// reordering `shuffled` of the member list `ms` splits into `n`
/// consecutive parts whose sizes differ by at most one, and each winner
/// carries the largest fitness of its part.
pub open spec fn tournament_outcome(
    p: &Population,
    n: int,
    ms: Seq<Member>,
    shuffled: Seq<Member>,
    r: Seq<Member>,
) -> bool {
    let len = p.spec_individuals().len() as int;
    &&& ms.len() == len
    &&& (forall|i: int| 0 <= i < len ==> #[trigger] ms[i]@ == p.member_at(i))
    &&& shuffled.to_multiset() == ms.to_multiset()
    &&& forall|c: int|
        0 <= c < r.len() ==> #[trigger] tournament_winner_at(len, n, shuffled, r, c)
}

/// Shuffle the population and split it into `n` parts whose sizes differ by
/// at most one; the fittest member of each part is its winner, so every
/// member takes part in exactly one tournament and exactly `n` winners
/// return.
#[derive(Clone)]
pub struct TournamentSelection {
    n: usize,
}

impl TournamentSelection {
    /// How many parts the population is split into, for specifications.
    pub closed spec fn spec_n(&self) -> int {
        self.n as int
    }

    /// Split the population into `n` parts.
    pub fn new(n: usize) -> (r: Self)
        ensures
            r.spec_n() == n,
    {
        TournamentSelection { n }
    }
}

impl SelectionOperator for TournamentSelection {
    open spec fn sel_ok(&self, p: &Population) -> bool {
        1 <= self.spec_n() <= p.spec_individuals().len()
    }

    open spec fn sel_count(&self, p: &Population) -> int {
        self.spec_n()
    }

    /// Shuffle, partition into `n` equal-ish parts, and pick the best
    /// member of each part: some reordering of the population's members
    /// splits into `n` consecutive parts, and winner `c` carries the
    /// largest fitness of part `c`.
    fn select_from(&self, population: &Population, rng: &mut rand::rngs::StdRng) -> (r: Vec<
        Member,
    >)
        ensures
            exists|ms: Seq<Member>, shuffled: Seq<Member>|
                tournament_outcome(population, self.spec_n(), ms, shuffled, r@),
    {
        let mut members = population.members();
        let ghost members0 = members@;
        crate::random::shuffle_vec(rng, &mut members);
        proof {
            lemma_multiset_members(members0, members@);
            assert forall|i: int| 0 <= i < members@.len() implies population.spec_has_member(
                #[trigger] members@[i]@,
            ) by {
                let j = choose|j: int| 0 <= j < members0.len() && members0[j] == members@[i];
                assert(members0[j]@ == population.member_at(j));
            }
        }
        let ghost shuffled = members@;
        let psize = members.len();
        let ghost len = psize as int;
        let ghost nn = self.spec_n();
        let base = psize / self.n;
        let rem = psize % self.n;
        // `wins[c]` is the position of part c's winner in the shuffled order
        let ghost mut wins: Map<int, int> = Map::empty();
        let mut r: Vec<Member> = Vec::new();
        let mut start: usize = 0;
        let mut c: usize = 0;
        proof {
            lemma_tournament_part_start(len, nn, 0);
            vstd::arithmetic::div_mod::lemma_fundamental_div_mod(len, nn);
            assert(base >= 1) by (nonlinear_arith)
                requires
                    base == len / nn,
                    1 <= nn <= len,
            ;
        }
        while c < self.n
            invariant
                c <= self.n,
                c == r@.len(),
                1 <= self.spec_n() <= psize as int,
                nn == self.spec_n(),
                len == psize as int,
                psize == members@.len(),
                members@ == shuffled,
                psize == population.spec_individuals().len(),
                base == len / nn,
                rem == len % nn,
                base >= 1,
                len == nn * base + rem,
                0 <= rem < nn,
                start as int == tournament_part_start(len, nn, c as int),
                start <= psize,
                forall|i: int|
                    0 <= i < members@.len() ==> population.spec_has_member(
                        #[trigger] members@[i]@,
                    ),
                forall|i: int| 0 <= i < r@.len() ==> population.spec_has_member(#[trigger] r@[i]@),
                forall|cc: int|
                    0 <= cc < c ==> tournament_part_start(len, nn, cc) <= #[trigger] wins[cc]
                        < tournament_part_start(len, nn, cc + 1) && r@[cc]@ == shuffled[wins[cc]]@
                        && (forall|q: int|
                        #![trigger shuffled[q]]
                        tournament_part_start(len, nn, cc) <= q < tournament_part_start(
                            len,
                            nn,
                            cc + 1,
                        ) ==> shuffled[q]@.fitness <= shuffled[wins[cc]]@.fitness),
            decreases self.n - c,
        {
            proof {
                lemma_tournament_part_start(len, nn, c as int);
            }
            let mut size_c = base;
            if c < rem {
                proof {
                    assert(base < psize) by (nonlinear_arith)
                        requires
                            len == nn * base + rem,
                            1 <= rem,
                            rem < nn,
                            base >= 1,
                            len == psize as int,
                    ;
                }
                size_c = base + 1;
            }
            proof {
                assert(start + size_c == tournament_part_start(len, nn, c as int + 1));
                assert(start + size_c <= psize);
            }
            let end = start + size_c;
            let mut kb = start;
            let mut j = start + 1;
            while j < end
                invariant
                    start <= kb < j <= end,
                    end <= psize,
                    psize == members@.len(),
                    members@ == shuffled,
                    psize == population.spec_individuals().len(),
                    forall|q: int| start <= q < j ==> shuffled[q]@.fitness <= shuffled[kb as int]@.fitness,
                    forall|i: int|
                        0 <= i < members@.len() ==> population.spec_has_member(
                            #[trigger] members@[i]@,
                        ),
                decreases end - j,
            {
                if members[j].fitness_value() > members[kb].fitness_value() {
                    kb = j;
                }
                j = j + 1;
            }
            let winner = members[kb].clone();
            proof {
                assert(winner@ == shuffled[kb as int]@);
                wins = wins.insert(c as int, kb as int);
            }
            r.push(winner);
            start = end;
            c = c + 1;
        }
        proof {
            assert(population.spec_individuals().len() as int == len);
            assert(self.spec_n() == nn);
            assert forall|cc: int| 0 <= cc < r@.len() implies #[trigger] tournament_winner_at(
                len,
                nn,
                shuffled,
                r@,
                cc,
            ) by {
                let w = wins[cc];
                assert(tournament_part_start(len, nn, cc) <= w < tournament_part_start(
                    len,
                    nn,
                    cc + 1,
                ) && r@[cc]@ == shuffled[w]@ && (forall|q: int|
                    #![trigger shuffled[q]]
                    tournament_part_start(len, nn, cc) <= q < tournament_part_start(len, nn, cc + 1)
                        ==> shuffled[q]@.fitness <= shuffled[w]@.fitness));
            }
            assert(members0.len() == population.spec_individuals().len());
            assert(forall|i: int|
                0 <= i < members0.len() ==> #[trigger] members0[i]@ == population.member_at(i));
            assert(shuffled.to_multiset() == members0.to_multiset());
            assert(tournament_outcome(population, self.spec_n(), members0, shuffled, r@));
        }
        r
    }
}

/// Sample `k` of a stochastic-universal run: the first member, in ranked
/// order, whose cumulative fitness (scaled by `n`) passes the evenly spaced
/// point `start + k * total`.
pub open spec fn sus_pick_at(
    ranked: Seq<Member>,
    n: int,
    start: int,
    r: Seq<Member>,
    k: int,
) -> bool {
    let total = seq_sum(member_fitness(ranked));
    exists|w: int|
        {
            &&& 0 <= w < ranked.len()
            &&& r[k]@ == ranked[w]@
            &&& seq_sum(member_fitness(ranked).take(w + 1)) * n > start + k * total
            &&& (w == 0 || seq_sum(member_fitness(ranked).take(w)) * n <= start + k * total)
        }
}

/// What stochastic universal sampling does: the population's member list
/// `ms` is ranked by descending fitness into `ranked`, one start offset in
/// `[0, total)` is drawn, and sample `k` resolves the point
/// `start + k * total` along the scaled cumulative-fitness axis.
pub open spec fn sus_outcome(
    p: &Population,
    n: int,
    ms: Seq<Member>,
    ranked: Seq<Member>,
    start: int,
    r: Seq<Member>,
) -> bool {
    &&& ms.len() == p.spec_individuals().len()
    &&& (forall|i: int| 0 <= i < ms.len() ==> #[trigger] ms[i]@ == p.member_at(i))
    &&& ranked.to_multiset() == ms.to_multiset()
    &&& sorted_desc(ranked)
    &&& 0 <= start < seq_sum(member_fitness(ranked))
    &&& r.len() == n
    &&& (forall|k: int| 0 <= k < n ==> #[trigger] sus_pick_at(ranked, n, start, r, k))
}

/// Sample `n` members at evenly spaced points along the cumulative fitness
/// axis, from one random starting offset: lower-variance coverage than `n`
/// independent fitness-proportionate draws.
#[derive(Clone)]
pub struct StochasticUniversalSampling {
    n: usize,
}

impl StochasticUniversalSampling {
    /// How many members one call selects, for specifications.
    pub closed spec fn spec_n(&self) -> int {
        self.n as int
    }

    /// Select `n` members at evenly spaced cumulative-fitness points.
    pub fn new(n: usize) -> (r: Self)
        ensures
            r.spec_n() == n,
    {
        StochasticUniversalSampling { n }
    }
}

impl SelectionOperator for StochasticUniversalSampling {
    /// Every fitness value must be nonnegative and their sum positive; the
    /// population size and the selection count are capped so that the
    /// fixed-width sums cannot overflow.
    open spec fn sel_ok(&self, p: &Population) -> bool {
        &&& 0 < p.spec_individuals().len() <= 0x10_0000
        &&& 1 <= self.spec_n() <= 0x10_0000
        &&& forall|i: int|
            0 <= i < p.spec_fitness_values().len() ==> #[trigger] p.spec_fitness_values()[i] >= 0
        &&& seq_sum(p.spec_fitness_values()) > 0
    }

    open spec fn sel_count(&self, p: &Population) -> int {
        self.spec_n()
    }

    /// Sort by fitness, then walk the cumulative fitness axis in `n` even
    /// steps from a random offset, taking the first member whose cumulative
    /// fitness passes each point.
    fn select_from(&self, population: &Population, rng: &mut rand::rngs::StdRng) -> (r: Vec<
        Member,
    >)
        ensures
            exists|ms: Seq<Member>, ranked: Seq<Member>, start: int|
                sus_outcome(population, self.spec_n(), ms, ranked, start, r@),
    {
        let ghost fv = population.spec_fitness_values();
        let mut members = population.members();
        let ghost members0 = members@;
        members.sort_by_fitness();
        proof {
            lemma_multiset_members(members0, members@);
            lemma_multiset_members(members@, members0);
            assert forall|i: int| 0 <= i < members@.len() implies population.spec_has_member(
                #[trigger] members@[i]@,
            ) by {
                let j = choose|j: int| 0 <= j < members0.len() && members0[j] == members@[i];
                assert(members0[j]@ == population.member_at(j));
            }
        }
        let ghost sortedv = members@;
        let m = members.len();
        let ghost sfv = member_fitness(members@);
        proof {
            population.lemma_fitness_values_bounded();
            assert(member_fitness(members0) =~= fv);
            assert forall|k: int| 0 <= k < m implies 0 <= #[trigger] sfv[k]
                < 0x8000_0000_0000_0000 by {
                let j = choose|j: int| 0 <= j < members0.len() && members0[j] == members@[k];
                assert(members0[j]@ == population.member_at(j));
                assert(sfv[k] == fv[j]);
            }
            crate::fitness::lemma_seq_sum_nonneg(sfv);
            crate::fitness::lemma_seq_sum_upper(sfv, 0x8000_0000_0000_0000);
            assert(sfv.len() * 0x8000_0000_0000_0000 <= 0x8_0000_0000_0000_0000_0000)
                by (nonlinear_arith)
                requires
                    0 <= sfv.len() <= 0x10_0000,
            ;
            // some member carries positive fitness, so the total is positive
            crate::fitness::lemma_seq_sum_nonneg(fv);
            crate::fitness::lemma_seq_sum_pos_element(fv);
            let i0 = choose|i0: int| 0 <= i0 < fv.len() && fv[i0] > 0;
            assert(members0[i0]@ == population.member_at(i0));
            assert(members@.contains(members0[i0]));
            let k0 = choose|k0: int| 0 <= k0 < members@.len() && members@[k0] == members0[i0];
            assert(sfv[k0] > 0);
        }
        // total fitness of the sorted members
        let mut total: i128 = 0;
        let mut i: usize = 0;
        proof {
            assert(sfv.take(0) =~= Seq::<int>::empty());
        }
        while i < m
            invariant
                i <= m,
                m == members@.len(),
                m == sfv.len(),
                member_fitness(members@) == sfv,
                forall|k: int| 0 <= k < m ==> #[trigger] sfv[k] >= 0,
                forall|k: int| 0 <= k <= m ==> seq_sum(#[trigger] sfv.take(k)) <= seq_sum(sfv),
                seq_sum(sfv) <= 0x8_0000_0000_0000_0000_0000,
                total as int == seq_sum(sfv.take(i as int)),
                0 <= total as int <= seq_sum(sfv),
            decreases m - i,
        {
            proof {
                assert(sfv.take(i + 1).drop_last() =~= sfv.take(i as int));
                assert(sfv.take(i + 1).last() == sfv[i as int]);
            }
            total = total + members[i].fitness_value() as i128;
            i = i + 1;
        }
        proof {
            assert(sfv.take(m as int) =~= sfv);
        }
        let start = crate::random::rand_below_i128(rng, total);
        let nn = self.n as i128;
        // `picks[k]` is the position of sample k in the ranked order
        let ghost mut picks: Map<int, int> = Map::empty();
        let mut selected: Vec<Member> = Vec::new();
        let mut t: usize = 0;
        while t < self.n
            invariant
                t <= self.n,
                1 <= self.spec_n() <= 0x10_0000,
                nn as int == self.spec_n(),
                m == members@.len(),
                members@ == sortedv,
                m == sfv.len(),
                m == population.spec_individuals().len(),
                m > 0,
                member_fitness(members@) == sfv,
                forall|i: int|
                    0 <= i < members@.len() ==> population.spec_has_member(
                        #[trigger] members@[i]@,
                    ),
                forall|k: int| 0 <= k < m ==> #[trigger] sfv[k] >= 0,
                forall|k: int| 0 <= k <= m ==> seq_sum(#[trigger] sfv.take(k)) <= seq_sum(sfv),
                total as int == seq_sum(sfv),
                0 < total as int <= 0x8_0000_0000_0000_0000_0000,
                0 <= start < total,
                selected@.len() == t,
                forall|i: int|
                    0 <= i < t ==> population.spec_has_member(#[trigger] selected@[i]@),
                forall|t2: int|
                    0 <= t2 < t ==> 0 <= #[trigger] picks[t2] < m && selected@[t2]@
                        == sortedv[picks[t2]]@ && seq_sum(sfv.take(picks[t2] + 1)) * (nn as int)
                        > start as int + t2 * (total as int) && (picks[t2] == 0 || seq_sum(
                        sfv.take(picks[t2]),
                    ) * (nn as int) <= start as int + t2 * (total as int)),
            decreases self.n - t,
        {
            proof {
                assert((t as int) * (total as int) <= 0x10_0000 * 0x8_0000_0000_0000_0000_0000)
                    by (nonlinear_arith)
                    requires
                        0 <= t as int <= 0x10_0000,
                        0 <= total as int <= 0x8_0000_0000_0000_0000_0000,
                ;
                assert((t as int) * (total as int) >= 0) by (nonlinear_arith)
                    requires
                        t as int >= 0,
                        total as int >= 0,
                ;
            }
            let point: i128 = start + (t as i128) * total;
            proof {
                assert((point as int) < (nn as int) * (total as int)) by (nonlinear_arith)
                    requires
                        point as int == start as int + (t as int) * (total as int),
                        (start as int) < total as int,
                        (t as int) < nn as int,
                        total as int > 0,
                ;
            }
            let mut i: usize = 0;
            let mut acc: i128 = members[0].fitness_value() as i128;
            proof {
                assert(sfv.take(1).drop_last() =~= sfv.take(0));
                assert(sfv.take(0) =~= Seq::<int>::empty());
                assert(acc as int == seq_sum(sfv.take(1)));
            }
            loop
                invariant
                    i < m,
                    m == members@.len(),
                    members@ == sortedv,
                    m == sfv.len(),
                    member_fitness(members@) == sfv,
                    1 <= nn as int <= 0x10_0000,
                    forall|k: int| 0 <= k < m ==> #[trigger] sfv[k] >= 0,
                    forall|k: int| 0 <= k <= m ==> seq_sum(#[trigger] sfv.take(k)) <= seq_sum(sfv),
                    total as int == seq_sum(sfv),
                    0 < total as int <= 0x8_0000_0000_0000_0000_0000,
                    acc as int == seq_sum(sfv.take(i + 1)),
                    0 <= acc as int <= total as int,
                    (point as int) < (nn as int) * (total as int),
                    i == 0 || seq_sum(sfv.take(i as int)) * (nn as int) <= point as int,
                ensures
                    i < m,
                    acc as int == seq_sum(sfv.take(i + 1)),
                    seq_sum(sfv.take(i + 1)) * (nn as int) > point as int,
                    i == 0 || seq_sum(sfv.take(i as int)) * (nn as int) <= point as int,
                decreases m - i,
            {
                proof {
                    assert(0 <= (acc as int) * (nn as int)
                        <= 0x8_0000_0000_0000_0000_0000 * 0x10_0000) by (nonlinear_arith)
                        requires
                            0 <= acc as int <= 0x8_0000_0000_0000_0000_0000,
                            1 <= nn as int <= 0x10_0000,
                    ;
                }
                let passed = acc * nn > point;
                if passed {
                    break;
                }
                proof {
                    assert((acc as int) < total as int) by (nonlinear_arith)
                        requires
                            (acc as int) * (nn as int) <= point as int,
                            (point as int) < (nn as int) * (total as int),
                            nn as int >= 1,
                            acc as int >= 0,
                    ;
                    if i + 1 == m {
                        assert(sfv.take(m as int) =~= sfv);
                    }
                    assert(sfv.take(i + 2).drop_last() =~= sfv.take(i + 1));
                    assert(sfv.take(i + 2).last() == sfv[i + 1]);
                }
                i = i + 1;
                acc = acc + members[i].fitness_value() as i128;
            }
            let chosen = members[i].clone();
            proof {
                assert(chosen@ == members@[i as int]@);
                picks = picks.insert(t as int, i as int);
                assert(point as int == start as int + (t as int) * (total as int));
            }
            selected.push(chosen);
            t = t + 1;
        }
        proof {
            assert forall|k: int| 0 <= k < self.spec_n() implies #[trigger] sus_pick_at(
                sortedv,
                self.spec_n(),
                start as int,
                selected@,
                k,
            ) by {
                let w = picks[k];
                assert(member_fitness(sortedv) == sfv);
                assert(0 <= w < sortedv.len() && selected@[k]@ == sortedv[w]@ && seq_sum(
                    sfv.take(w + 1),
                ) * self.spec_n() > start as int + k * seq_sum(sfv) && (w == 0 || seq_sum(
                    sfv.take(w),
                ) * self.spec_n() <= start as int + k * seq_sum(sfv)));
            }
            assert(member_fitness(sortedv) == sfv);
            assert(sus_outcome(
                population,
                self.spec_n(),
                members0,
                sortedv,
                start as int,
                selected@,
            ));
        }
        selected
    }
}

} // verus!
