//! Perturbing a genome, gene by gene.

use vstd::prelude::*;
use crate::entropy::{draw_ratio, draw_within};
use crate::fixed::{saturate, add_saturating, ONE};

verus! {

/// What holds of every genome that comes out of a mutation with the given
/// coefficient: it is as long as before, and no gene has moved by more than
/// the coefficient.
pub open spec fn mutated(before: Seq<i32>, after: Seq<i32>, coefficient: i32) -> bool {
    &&& after.len() == before.len()
    &&& forall|i: int|
        0 <= i < before.len() ==> -coefficient <= #[trigger] after[i] - before[i] <= coefficient
}

/// The genome that given shifts make: each gene moved by the shift at its
/// position and saturated. A gene without a shift of its own stays.
pub open spec fn shifted_by(genes: Seq<i32>, shifts: Seq<i32>) -> Seq<i32> {
    Seq::new(
        genes.len(),
        |i: int|
            if i < shifts.len() {
                saturate(genes[i] + shifts[i])
            } else {
                genes[i]
            },
    )
}

/// Every shift lies within the coefficient.
pub open spec fn shifts_within(shifts: Seq<i32>, coefficient: i32) -> bool {
    forall|i: int| 0 <= i < shifts.len() ==> -coefficient <= #[trigger] shifts[i] <= coefficient
}

/// A strategy that perturbs a genome in place.
pub trait MutationMethod {
    /// Which outcomes this strategy allows for a given genome.
    spec fn permits(&self, before: Seq<i32>, after: Seq<i32>) -> bool;

    /// Perturbs `genes`. The genome keeps its length.
    fn mutate(&self, rng: &mut rand::rngs::StdRng, genes: &mut Vec<i32>)
        ensures
            final(genes)@.len() == old(genes)@.len(),
            self.permits(old(genes)@, final(genes)@),
    ;
}

/// Moves each gene by the shift that has already been drawn for it.
pub fn mutate_with(genes: &mut Vec<i32>, shifts: &Vec<i32>)
    ensures
        final(genes)@ == shifted_by(old(genes)@, shifts@),
{
    let ghost before = genes@;
    let mut i: usize = 0;
    while i < genes.len() && i < shifts.len()
        invariant
            genes@.len() == before.len(),
            i <= genes@.len(),
            forall|k: int| 0 <= k < i ==> genes@[k] == shifted_by(before, shifts@)[k],
            forall|k: int| i <= k < genes@.len() ==> genes@[k] == before[k],
        decreases genes@.len() - i,
    {
        let moved = add_saturating(genes[i], shifts[i]);
        genes.set(i, moved);
        i = i + 1;
    }
    assert(genes@ =~= shifted_by(before, shifts@));
}

/// Shifts within a coefficient move no gene by more than the coefficient.
pub proof fn lemma_shifted_by_is_mutated(genes: Seq<i32>, shifts: Seq<i32>, coefficient: i32)
    requires
        shifts_within(shifts, coefficient),
        coefficient >= 0,
    ensures
        mutated(genes, shifted_by(genes, shifts), coefficient),
{
    let after = shifted_by(genes, shifts);
    assert forall|i: int| 0 <= i < genes.len() implies -coefficient <= #[trigger] after[i]
        - genes[i] <= coefficient by {
        if i < shifts.len() {
            assert(-coefficient <= shifts[i] <= coefficient);
        }
    }
}

/// A mutation with coefficient zero changes nothing, whatever the chance.
pub proof fn lemma_zero_coefficient_changes_nothing(before: Seq<i32>, after: Seq<i32>)
    requires
        mutated(before, after, 0),
    ensures
        after == before,
{
    assert forall|i: int| 0 <= i < before.len() implies after[i] == before[i] by {
        assert(0 <= after[i] - before[i] <= 0);
    }
    assert(after =~= before);
}

/// Uniform mutation: each gene on its own is, with probability `chance`,
/// moved by a value drawn evenly from `-coefficient ..= coefficient`. A gene
/// that would leave the representable range stops at its end; nothing else
/// limits how far genes drift over the generations.
pub struct UniformMutation {
    chance: i32,
    coefficient: i32,
}

impl UniformMutation {
    #[verifier::type_invariant]
    spec fn valid(&self) -> bool {
        0 <= self.chance <= ONE && self.coefficient >= 0
    }

    /// The probability that a gene is perturbed, between zero and `ONE`.
    pub closed spec fn chance_value(&self) -> i32 {
        self.chance
    }

    /// The largest distance by which a gene is moved.
    pub closed spec fn coefficient_value(&self) -> i32 {
        self.coefficient
    }

    /// A mutation with the given chance, a Q16.16 probability, and the given
    /// coefficient, a Q16.16 magnitude.
    pub fn new(chance: i32, coefficient: i32) -> (mutation: Self)
        requires
            0 <= chance <= ONE,
            coefficient >= 0,
        ensures
            mutation.chance_value() == chance,
            mutation.coefficient_value() == coefficient,
    {
        UniformMutation { chance, coefficient }
    }

    pub fn chance(&self) -> (chance: i32)
        ensures
            chance == self.chance_value(),
            0 <= chance <= ONE,
    {
        proof {
            use_type_invariant(self);
        }
        self.chance
    }

    pub fn coefficient(&self) -> (coefficient: i32)
        ensures
            coefficient == self.coefficient_value(),
            coefficient >= 0,
    {
        proof {
            use_type_invariant(self);
        }
        self.coefficient
    }
}

impl MutationMethod for UniformMutation {
    /// No gene moves by more than the coefficient, and with chance zero no
    /// gene moves at all.
    open spec fn permits(&self, before: Seq<i32>, after: Seq<i32>) -> bool {
        &&& mutated(before, after, self.coefficient_value())
        &&& self.chance_value() == 0 ==> after == before
    }

    fn mutate(&self, rng: &mut rand::rngs::StdRng, genes: &mut Vec<i32>) {
        proof {
            use_type_invariant(self);
        }
        let mut shifts: Vec<i32> = Vec::with_capacity(genes.len());
        let mut i: usize = 0;
        while i < genes.len()
            invariant
                i <= genes@.len(),
                shifts@.len() == i,
                0 <= self.chance <= ONE,
                self.coefficient >= 0,
                shifts_within(shifts@, self.coefficient),
                self.chance == 0 ==> forall|k: int| 0 <= k < i ==> shifts@[k] == 0,
            decreases genes@.len() - i,
        {
            let shift: i32 = if draw_ratio(rng, self.chance as u32, 65536) {
                draw_within(rng, self.coefficient)
            } else {
                0
            };
            shifts.push(shift);
            i = i + 1;
        }
        proof {
            lemma_shifted_by_is_mutated(genes@, shifts@, self.coefficient);
            if self.chance == 0 {
                assert(shifted_by(genes@, shifts@) =~= genes@);
            }
        }
        mutate_with(genes, &shifts);
    }
}

} // verus!
