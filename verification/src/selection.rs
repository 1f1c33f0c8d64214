//! Choosing a parent, with a bias towards the fitter.

use vstd::prelude::*;
use crate::entropy::draw_below;
use crate::error::Error;
use crate::individual::{Individual, fitness_sum, total_fitness, lemma_fitness_sum_grows, lemma_fitness_sum_bounded};

verus! {

/// A strategy that picks one individual of a population.
pub trait SelectionMethod {
    /// Picks one individual. An empty population is refused; from any other
    /// the answer is one of its members.
    fn select<'a, I: Individual>(
        &self,
        rng: &mut rand::rngs::StdRng,
        population: &'a [I],
    ) -> (result: Result<&'a I, Error>)
        ensures
            population@.len() == 0 ==> result == Err::<&'a I, Error>(Error::EmptyPopulation),
            population@.len() > 0 ==> (result matches Ok(chosen) && exists|i: int|
                0 <= i < population@.len() && #[trigger] population@[i] == *chosen),
    ;
}

/// Where a roulette wheel stops: the slot of individual `index` covers the
/// draws from the fitness summed before it up to, and not including, the
/// fitness summed through it. The slots of a population partition
/// `[0, total)` without gaps or overlaps, so at most one index qualifies.
pub open spec fn wheel_stops_at<I: Individual>(population: Seq<I>, draw: nat, index: int) -> bool {
    &&& 0 <= index < population.len()
    &&& fitness_sum(population, index as nat) <= draw
    &&& draw < fitness_sum(population, (index + 1) as nat)
}

/// The slots of the wheel do not overlap: a draw stops at one index only.
pub proof fn lemma_wheel_stop_unique<I: Individual>(population: Seq<I>, draw: nat, i: int, j: int)
    requires
        wheel_stops_at(population, draw, i),
        wheel_stops_at(population, draw, j),
    ensures
        i == j,
{
    if i < j {
        lemma_fitness_sum_grows(population, (i + 1) as nat, j as nat);
    } else if j < i {
        lemma_fitness_sum_grows(population, (j + 1) as nat, i as nat);
    }
}

/// The slots of the wheel leave no gap: every draw below the total fitness
/// stops somewhere, and at an individual that has fitness.
pub proof fn lemma_wheel_stop_exists<I: Individual>(population: Seq<I>, draw: nat)
    requires
        draw < total_fitness(population),
    ensures
        exists|i: int| #[trigger] wheel_stops_at(population, draw, i) && population[i].score() > 0,
{
    lemma_wheel_stop_within(population, draw, population.len());
}

/// A draw below the fitness of the first `n` individuals stops among them.
proof fn lemma_wheel_stop_within<I: Individual>(population: Seq<I>, draw: nat, n: nat)
    requires
        n <= population.len(),
        draw < fitness_sum(population, n),
    ensures
        exists|i: int|
            0 <= i < n && #[trigger] wheel_stops_at(population, draw, i) && population[i].score()
                > 0,
    decreases n,
{
    if draw < fitness_sum(population, (n - 1) as nat) {
        lemma_wheel_stop_within(population, draw, (n - 1) as nat);
    } else {
        assert(wheel_stops_at(population, draw, n - 1));
    }
}

/// Adds up the fitness of a population.
pub fn sum_fitness<I: Individual>(population: &[I]) -> (total: u128)
    ensures
        total == total_fitness(population@),
{
    let mut total: u128 = 0;
    let mut i: usize = 0;
    while i < population.len()
        invariant
            i <= population@.len(),
            total == fitness_sum(population@, i as nat),
        decreases population@.len() - i,
    {
        proof {
            lemma_fitness_sum_bounded(population@, i as nat);
            assert(i * 0xffff_ffff <= 0xffff_ffff_ffff_ffff * 0xffff_ffff) by (nonlinear_arith)
                requires
                    i <= 0xffff_ffff_ffff_ffff,
            ;
        }
        total = total + population[i].fitness() as u128;
        i = i + 1;
    }
    total
}

/// Walks the population accumulating fitness and answers with the first
/// individual whose cumulative fitness exceeds `draw`; there is one exactly
/// when `draw` is below the total fitness.
pub fn wheel_index<I: Individual>(population: &[I], draw: u128) -> (stop: Option<usize>)
    ensures
        draw < total_fitness(population@) ==> (stop matches Some(index) && wheel_stops_at(
            population@,
            draw as nat,
            index as int,
        )),
        draw >= total_fitness(population@) ==> stop.is_none(),
{
    let mut passed: u128 = 0;
    let mut i: usize = 0;
    while i < population.len()
        invariant
            i <= population@.len(),
            passed == fitness_sum(population@, i as nat),
            passed <= draw,
        decreases population@.len() - i,
    {
        let share: u128 = population[i].fitness() as u128;
        if draw - passed < share {
            proof {
                lemma_fitness_sum_grows(population@, (i + 1) as nat, population@.len());
            }
            return Some(i);
        }
        passed = passed + share;
        i = i + 1;
    }
    None
}

/// Fitness-proportionate selection: an individual is chosen with a
/// probability proportional to its share of the total fitness. Where nobody
/// has any fitness, every individual is equally likely.
pub struct RouletteWheelSelection;

impl RouletteWheelSelection {
    pub fn new() -> Self {
        RouletteWheelSelection
    }
}

impl SelectionMethod for RouletteWheelSelection {
    /// Beyond what every strategy promises: as long as anyone has fitness, an
    /// individual without fitness is never chosen.
    fn select<'a, I: Individual>(
        &self,
        rng: &mut rand::rngs::StdRng,
        population: &'a [I],
    ) -> (result: Result<&'a I, Error>)
        ensures
            total_fitness(population@) > 0 ==> (result matches Ok(chosen) && chosen.score() > 0),
    {
        if population.len() == 0 {
            return Err(Error::EmptyPopulation);
        }
        let total = sum_fitness(population);
        if total == 0 {
            let index = draw_below(rng, population.len() as u128) as usize;
            return Ok(&population[index]);
        }
        let draw = draw_below(rng, total);
        // The draw is below the total, so the wheel always stops.
        match wheel_index(population, draw) {
            Some(index) => Ok(&population[index]),
            None => Err(Error::EmptyPopulation),
        }
    }
}

} // verus!
