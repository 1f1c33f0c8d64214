//! The generational loop: a population in, the next population out.

use vstd::prelude::*;
use crate::crossover::{CrossoverMethod, crossed};
use crate::error::Error;
use crate::individual::Individual;
use crate::mutation::MutationMethod;
use crate::selection::SelectionMethod;

verus! {

/// All genomes of the population have one length.
pub open spec fn same_length<I: Individual>(population: Seq<I>) -> bool {
    forall|i: int|
        0 <= i < population.len() ==> (#[trigger] population[i]).genes().len()
            == population[0].genes().len()
}

/// `to_individual` accepts every genome that is as long as one in the
/// population.
pub open spec fn accepts_genomes_of<I: Individual, F: Fn(Vec<i32>) -> I>(
    to_individual: F,
    population: Seq<I>,
) -> bool {
    forall|genes: Vec<i32>, i: int|
        0 <= i < population.len() && genes@.len() == (#[trigger] population[i]).genes().len()
            ==> #[trigger] call_requires(to_individual, (genes,))
}

/// `child` descends from the population: two of its members, not
/// necessarily different ones, were crossed, the outcome was mutated, and
/// `to_individual` made `child` of the mutated genome.
pub open spec fn bred_from<I: Individual, M: MutationMethod, F: Fn(Vec<i32>) -> I>(
    population: Seq<I>,
    mutation: M,
    to_individual: F,
    child: I,
) -> bool {
    exists|a: int, b: int, mixed: Seq<i32>, genes: Vec<i32>|
        0 <= a < population.len() && 0 <= b < population.len() && #[trigger] crossed(
            population[a].genes(),
            population[b].genes(),
            mixed,
        ) && #[trigger] mutation.permits(mixed, genes@) && call_ensures(
            to_individual,
            (genes,),
            child,
        )
}

/// Plain single-objective evolution with a population of fixed size that is
/// replaced as a whole in each generation.
pub struct GeneticAlgorithm;

impl GeneticAlgorithm {
    pub fn new() -> Self {
        GeneticAlgorithm
    }

    /// Breeds the next generation.
    ///
    /// For each individual of `population` one child is made: `selection`
    /// picks two parents from `population`, `crossover` combines their
    /// genomes, `mutation` perturbs the outcome and `to_individual` turns it
    /// into an individual. The population itself is only read.
    ///
    /// An empty population is refused, and so is one whose genomes differ in
    /// length; in both cases nothing is drawn from `rng` and nothing is made.
    pub fn evolve<I, S, C, M, F>(
        &self,
        rng: &mut rand::rngs::StdRng,
        population: &[I],
        selection: &S,
        crossover: &C,
        mutation: &M,
        to_individual: F,
    ) -> (result: Result<Vec<I>, Error>) where
        I: Individual,
        S: SelectionMethod,
        C: CrossoverMethod,
        M: MutationMethod,
        F: Fn(Vec<i32>) -> I,

        requires
            accepts_genomes_of(to_individual, population@),
        ensures
            population@.len() == 0 ==> result == Err::<Vec<I>, Error>(Error::EmptyPopulation),
            population@.len() > 0 && !same_length(population@) ==> result == Err::<Vec<I>, Error>(
                Error::GenomeLengthMismatch,
            ),
            population@.len() > 0 && same_length(population@) ==> (result matches Ok(next)
                && next@.len() == population@.len() && forall|k: int|
                0 <= k < next@.len() ==> bred_from(
                    population@,
                    *mutation,
                    to_individual,
                    #[trigger] next@[k],
                )),
    {
        if population.len() == 0 {
            return Err(Error::EmptyPopulation);
        }
        let length = population[0].genome().len();
        let mut i: usize = 1;
        while i < population.len()
            invariant
                1 <= i <= population@.len(),
                length == population@[0].genes().len(),
                forall|k: int|
                    0 <= k < i ==> (#[trigger] population@[k]).genes().len() == length,
            decreases population@.len() - i,
        {
            if population[i].genome().len() != length {
                return Err(Error::GenomeLengthMismatch);
            }
            i = i + 1;
        }
        let mut next: Vec<I> = Vec::with_capacity(population.len());
        let mut k: usize = 0;
        while k < population.len()
            invariant
                k <= population@.len(),
                population@.len() > 0,
                same_length(population@),
                accepts_genomes_of(to_individual, population@),
                next@.len() == k,
                forall|j: int|
                    0 <= j < k ==> bred_from(
                        population@,
                        *mutation,
                        to_individual,
                        #[trigger] next@[j],
                    ),
            decreases population@.len() - k,
        {
            let parent_a = match selection.select(rng, population) {
                Ok(parent) => parent,
                Err(error) => {
                    return Err(error);
                },
            };
            let parent_b = match selection.select(rng, population) {
                Ok(parent) => parent,
                Err(error) => {
                    return Err(error);
                },
            };
            let genes_a = parent_a.genome();
            let genes_b = parent_b.genome();
            let ghost a = choose|a: int| 0 <= a < population@.len() && population@[a] == *parent_a;
            let ghost b = choose|b: int| 0 <= b < population@.len() && population@[b] == *parent_b;
            let mut genes = match crossover.crossover(rng, &genes_a, &genes_b) {
                Ok(child) => child,
                Err(error) => {
                    return Err(error);
                },
            };
            let ghost mixed = genes@;
            mutation.mutate(rng, &mut genes);
            let ghost mutated = genes;
            let child = to_individual(genes);
            proof {
                assert(crossed(population@[a].genes(), population@[b].genes(), mixed));
                assert(mutation.permits(mixed, mutated@));
                assert(call_ensures(to_individual, (mutated,), child));
                assert(bred_from(population@, *mutation, to_individual, child));
            }
            next.push(child);
            k = k + 1;
        }
        Ok(next)
    }
}

} // verus!
