//! Bit-string genome encoding.

use vstd::prelude::*;

verus! {

/// A genome encoded as a string of bits.
#[derive(Debug)]
pub struct Binary {
    bits: Vec<bool>,
}

impl View for Binary {
    type V = Seq<bool>;

    closed spec fn view(&self) -> Seq<bool> {
        self.bits@
    }
}

/// The bits after toggling each listed position in order; a position listed
/// twice is toggled twice.
pub open spec fn flip_seq(bits: Seq<bool>, positions: Seq<usize>) -> Seq<bool>
    decreases positions.len(),
{
    if positions.len() == 0 {
        bits
    } else {
        let done = flip_seq(bits, positions.drop_last());
        let p = positions.last() as int;
        if p < done.len() {
            done.update(p, !done[p])
        } else {
            done
        }
    }
}

pub proof fn lemma_flip_seq_len(bits: Seq<bool>, positions: Seq<usize>)
    ensures
        flip_seq(bits, positions).len() == bits.len(),
    decreases positions.len(),
{
    if positions.len() > 0 {
        lemma_flip_seq_len(bits, positions.drop_last());
    }
}

impl Clone for Binary {
    fn clone(&self) -> (r: Self)
        ensures
            r@ == self@,
    {
        let bits = self.bits.clone();
        proof {
            assert(bits@ =~= self.bits@);
        }
        Binary { bits }
    }
}

impl PartialEq for Binary {
    fn eq(&self, other: &Binary) -> (r: bool) {
        self.bits == other.bits
    }
}

impl Eq for Binary {

}

impl vstd::std_specs::cmp::PartialEqSpecImpl for Binary {
    open spec fn obeys_eq_spec() -> bool {
        true
    }

    open spec fn eq_spec(&self, other: &Binary) -> bool {
        self@ =~= other@
    }
}

impl Binary {
    /// Construct from a list of bool.
    pub fn new(list: Vec<bool>) -> (r: Self)
        ensures
            r@ == list@,
    {
        Binary { bits: list }
    }

    /// Convert from a binary string representation, e.g. "110".
    pub fn from_str(s: &str) -> (r: Self)
        requires
            forall|i: int| 0 <= i < s@.len() ==> s@[i] == '0' || s@[i] == '1',
        ensures
            r@.len() == s@.len(),
            forall|i: int| 0 <= i < s@.len() ==> r@[i] == (s@[i] == '1'),
    {
        let n = s.unicode_len();
        let mut bits: Vec<bool> = Vec::new();
        let mut i: usize = 0;
        while i < n
            invariant
                i <= n,
                n == s@.len(),
                bits@.len() == i,
                forall|k: int| 0 <= k < i ==> bits@[k] == (s@[k] == '1'),
            decreases n - i,
        {
            let c = s.get_char(i);
            bits.push(c == '1');
            i = i + 1;
        }
        Binary { bits }
    }

    /// The number of bits.
    pub fn len(&self) -> (n: usize)
        ensures
            n == self@.len(),
    {
        self.bits.len()
    }

    /// The bit at position `i`.
    pub fn get(&self, i: usize) -> (b: bool)
        requires
            i < self@.len(),
        ensures
            b == self@[i as int],
    {
        self.bits[i]
    }

    /// Overwrite the bit at position `i`.
    pub fn set(&mut self, i: usize, b: bool)
        requires
            i < old(self)@.len(),
        ensures
            final(self)@ == old(self)@.update(i as int, b),
    {
        self.bits.set(i, b);
    }

    /// Render as a binary string, e.g. "110101".
    pub fn to_string(&self) -> (r: String)
        ensures
            r@.len() == self@.len(),
            forall|i: int| 0 <= i < self@.len() ==> r@[i] == (if self@[i] { '1' } else { '0' }),
    {
        let mut r = String::new();
        let n = self.bits.len();
        let mut i: usize = 0;
        while i < n
            invariant
                i <= n,
                n == self@.len(),
                r@.len() == i,
                forall|k: int| 0 <= k < i ==> r@[k] == (if self@[k] { '1' } else { '0' }),
            decreases n - i,
        {
            proof {
                reveal_strlit("1");
                reveal_strlit("0");
            }
            if self.bits[i] {
                r.append("1");
            } else {
                r.append("0");
            }
            i = i + 1;
        }
        r
    }

    /// Flip the bits in the specified `positions`.
    pub fn flip(&mut self, positions: &Vec<usize>)
        requires
            forall|i: int| 0 <= i < positions@.len() ==> positions@[i] < old(self)@.len(),
        ensures
            final(self)@ == flip_seq(old(self)@, positions@),
            final(self)@.len() == old(self)@.len(),
    {
        let n = positions.len();
        let mut i: usize = 0;
        while i < n
            invariant
                i <= n,
                n == positions@.len(),
                forall|k: int| 0 <= k < n ==> positions@[k] < old(self)@.len(),
                self@ == flip_seq(old(self)@, positions@.take(i as int)),
                self@.len() == old(self)@.len(),
            decreases n - i,
        {
            proof {
                assert(positions@.take(i + 1).drop_last() =~= positions@.take(i as int));
                assert(positions@.take(i + 1).last() == positions@[i as int]);
            }
            let p = positions[i];
            let b = self.bits[p];
            self.bits.set(p, !b);
            i = i + 1;
        }
        proof {
            assert(positions@.take(n as int) =~= positions@);
        }
    }
}

/// Mutating a genome: flip `n` bits, chosen at random without repetition.
pub trait Mutate: View<V = Seq<bool>> {
    fn mutate(&mut self, n: usize, rng: &mut rand::rngs::StdRng)
        ensures
            final(self)@.len() == old(self)@.len(),
            exists|ps: Seq<usize>|
                #![auto]
                ps.len() == (if n <= old(self)@.len() {
                    n as int
                } else {
                    old(self)@.len() as int
                }) && (forall|a: int, b: int| 0 <= a < b < ps.len() ==> ps[a] != ps[b]) && (
                forall|a: int| 0 <= a < ps.len() ==> ps[a] < old(self)@.len()) && final(self)@
                    == flip_seq(old(self)@, ps),
    ;
}

impl Mutate for Binary {
    /// Mutate `n` bits at distinct random positions.
    fn mutate(&mut self, n: usize, rng: &mut rand::rngs::StdRng) {
        let len = self.bits.len();
        let mut choices: Vec<usize> = Vec::new();
        let mut i: usize = 0;
        while i < len
            invariant
                i <= len,
                choices@.len() == i,
                forall|k: int| 0 <= k < i ==> choices@[k] == k,
            decreases len - i,
        {
            choices.push(i);
            i = i + 1;
        }
        let positions = crate::random::choose_multiple_usize(rng, &choices, n);
        proof {
            assert(forall|k: int| 0 <= k < positions@.len() ==> choices@.contains(
                #[trigger] positions@[k],
            ));
            assert forall|k: int| 0 <= k < positions@.len() implies positions@[k]
                < self@.len() by {
                let c = choose|c: int| 0 <= c < choices@.len() && choices@[c] == positions@[k];
                assert(choices@[c] == c);
            }
        }
        self.flip(&positions);
    }
}

} // verus!
