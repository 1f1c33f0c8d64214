//! Combining the genomes of two parents into that of a child.

use vstd::prelude::*;
use crate::entropy::draw_ratio;
use crate::error::Error;

verus! {

/// What holds of every child of `parent_a` and `parent_b`: it is as long as
/// they are, and at each position it carries the gene that one of them has
/// there. A gene is never blended and never moves.
pub open spec fn crossed(parent_a: Seq<i32>, parent_b: Seq<i32>, child: Seq<i32>) -> bool {
    &&& parent_a.len() == parent_b.len()
    &&& child.len() == parent_a.len()
    &&& forall|i: int|
        0 <= i < child.len() ==> #[trigger] child[i] == parent_a[i] || child[i] == parent_b[i]
}

/// The child that a given run of coins makes: at each position parent A's
/// gene where the coin shows `true`, parent B's where it shows `false`.
pub open spec fn crossed_by(parent_a: Seq<i32>, parent_b: Seq<i32>, coins: Seq<bool>) -> Seq<i32> {
    Seq::new(
        parent_a.len(),
        |i: int|
            if coins[i] {
                parent_a[i]
            } else {
                parent_b[i]
            },
    )
}

/// A strategy that makes one child genome out of two parent genomes.
pub trait CrossoverMethod {
    /// Makes a child. Parents of unequal length are refused.
    fn crossover(
        &self,
        rng: &mut rand::rngs::StdRng,
        parent_a: &Vec<i32>,
        parent_b: &Vec<i32>,
    ) -> (result: Result<Vec<i32>, Error>)
        ensures
            parent_a@.len() != parent_b@.len() ==> result == Err::<Vec<i32>, Error>(
                Error::GenomeLengthMismatch,
            ),
            parent_a@.len() == parent_b@.len() ==> (result matches Ok(child) && crossed(
                parent_a@,
                parent_b@,
                child@,
            )),
    ;
}

/// Recombines two parents along a run of coins that has already been
/// thrown, one coin per position.
pub fn cross_with(parent_a: &Vec<i32>, parent_b: &Vec<i32>, coins: &Vec<bool>) -> (result: Result<
    Vec<i32>,
    Error,
>)
    ensures
        parent_a@.len() == parent_b@.len() && coins@.len() == parent_a@.len() ==> (result matches Ok(
            child,
        ) && child@ == crossed_by(parent_a@, parent_b@, coins@)),
        parent_a@.len() != parent_b@.len() || coins@.len() != parent_a@.len() ==> result == Err::<
            Vec<i32>,
            Error,
        >(Error::GenomeLengthMismatch),
{
    if parent_a.len() != parent_b.len() || coins.len() != parent_a.len() {
        return Err(Error::GenomeLengthMismatch);
    }
    let mut child: Vec<i32> = Vec::with_capacity(parent_a.len());
    let mut i: usize = 0;
    while i < parent_a.len()
        invariant
            i <= parent_a@.len(),
            parent_a@.len() == parent_b@.len(),
            coins@.len() == parent_a@.len(),
            child@.len() == i,
            forall|k: int| 0 <= k < i ==> child@[k] == crossed_by(parent_a@, parent_b@, coins@)[k],
        decreases parent_a@.len() - i,
    {
        let gene = if coins[i] {
            parent_a[i]
        } else {
            parent_b[i]
        };
        child.push(gene);
        i = i + 1;
    }
    assert(child@ =~= crossed_by(parent_a@, parent_b@, coins@));
    Ok(child)
}

/// Whatever the coins show, the child they make is a child of its parents.
pub proof fn lemma_crossed_by_is_crossed(parent_a: Seq<i32>, parent_b: Seq<i32>, coins: Seq<bool>)
    requires
        parent_a.len() == parent_b.len(),
    ensures
        crossed(parent_a, parent_b, crossed_by(parent_a, parent_b, coins)),
{
}

/// Uniform crossover: at each position on its own, a fair coin decides which
/// parent gives the gene. No position is treated differently from another.
pub struct UniformCrossover;

impl UniformCrossover {
    pub fn new() -> Self {
        UniformCrossover
    }
}

impl CrossoverMethod for UniformCrossover {
    fn crossover(
        &self,
        rng: &mut rand::rngs::StdRng,
        parent_a: &Vec<i32>,
        parent_b: &Vec<i32>,
    ) -> (result: Result<Vec<i32>, Error>)
    {
        if parent_a.len() != parent_b.len() {
            return Err(Error::GenomeLengthMismatch);
        }
        let mut coins: Vec<bool> = Vec::with_capacity(parent_a.len());
        let mut i: usize = 0;
        while i < parent_a.len()
            invariant
                i <= parent_a@.len(),
                coins@.len() == i,
            decreases parent_a@.len() - i,
        {
            coins.push(draw_ratio(rng, 1, 2));
            i = i + 1;
        }
        proof {
            lemma_crossed_by_is_crossed(parent_a@, parent_b@, coins@);
        }
        cross_with(parent_a, parent_b, &coins)
    }
}

} // verus!
