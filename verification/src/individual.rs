//! What the genetic algorithm needs to know of a candidate solution.

use vstd::prelude::*;

verus! {

/// A scorable candidate: it has a fitness and a genome.
///
/// The fitness is a count that is never negative and does not change while a
/// generation is being bred. The genome is the candidate's ordered sequence
/// of genes, as Q16.16 numbers.
pub trait Individual {
    /// The candidate's fitness, as contracts speak of it.
    spec fn score(&self) -> u32;

    /// The candidate's genome, as contracts speak of it.
    spec fn genes(&self) -> Seq<i32>;

    /// Reports the fitness.
    fn fitness(&self) -> (fitness: u32)
        ensures
            fitness == self.score(),
    ;

    /// Hands out a copy of the genome.
    fn genome(&self) -> (genome: Vec<i32>)
        ensures
            genome@ == self.genes(),
    ;
}

/// The plainest individual: a genome together with the score it earned.
#[derive(Debug, Clone, PartialEq, Eq)]
pub struct Candidate {
    pub genes: Vec<i32>,
    pub fitness: u32,
}

impl Candidate {
    pub fn new(genes: Vec<i32>, fitness: u32) -> (candidate: Self)
        ensures
            candidate.genes == genes,
            candidate.fitness == fitness,
    {
        Candidate { genes, fitness }
    }
}

impl Individual for Candidate {
    open spec fn score(&self) -> u32 {
        self.fitness
    }

    open spec fn genes(&self) -> Seq<i32> {
        self.genes@
    }

    fn fitness(&self) -> (fitness: u32) {
        self.fitness
    }

    fn genome(&self) -> (genome: Vec<i32>) {
        let mut genome: Vec<i32> = Vec::with_capacity(self.genes.len());
        let mut i: usize = 0;
        while i < self.genes.len()
            invariant
                i <= self.genes@.len(),
                genome@ == self.genes@.take(i as int),
            decreases self.genes@.len() - i,
        {
            genome.push(self.genes[i]);
            assert(self.genes@.take(i + 1) =~= self.genes@.take(i as int).push(self.genes@[i as int]));
            i = i + 1;
        }
        assert(self.genes@.take(i as int) =~= self.genes@);
        genome
    }
}

/// The fitness of the first `n` individuals, added up.
pub open spec fn fitness_sum<I: Individual>(population: Seq<I>, n: nat) -> nat
    decreases n,
{
    if n == 0 {
        0
    } else {
        fitness_sum(population, (n - 1) as nat) + population[n - 1].score() as nat
    }
}

/// The fitness of a whole population.
pub open spec fn total_fitness<I: Individual>(population: Seq<I>) -> nat {
    fitness_sum(population, population.len())
}

/// A partial sum never exceeds a later one.
pub proof fn lemma_fitness_sum_grows<I: Individual>(population: Seq<I>, m: nat, n: nat)
    requires
        m <= n,
    ensures
        fitness_sum(population, m) <= fitness_sum(population, n),
    decreases n,
{
    if m < n {
        lemma_fitness_sum_grows(population, m, (n - 1) as nat);
    }
}

/// A sum of `n` scores is at most `n` times the largest score there is.
pub proof fn lemma_fitness_sum_bounded<I: Individual>(population: Seq<I>, n: nat)
    ensures
        fitness_sum(population, n) <= n * 0xffff_ffff,
    decreases n,
{
    if n > 0 {
        lemma_fitness_sum_bounded(population, (n - 1) as nat);
        assert((n - 1) * 0xffff_ffff + 0xffff_ffff == n * 0xffff_ffff) by (nonlinear_arith);
    }
}

} // verus!
