//! Neuroevolution: small feedforward networks over fixed-point numbers and a
//! generational genetic algorithm that evolves their weights.
//!
//! Every real quantity (gene, weight, bias, input, probability) is a Q16.16
//! fixed-point number held in an `i32`: the integer `v` stands for the real
//! `v / 65536`. Fitness scores are plain `u32` counts.

pub mod algorithm;
pub mod crossover;
pub mod entropy;
pub mod error;
pub mod fixed;
pub mod genome;
pub mod individual;
pub mod mutation;
pub mod network;
pub mod selection;

pub use algorithm::GeneticAlgorithm;
pub use crossover::{CrossoverMethod, UniformCrossover};
pub use error::Error;
pub use individual::{Candidate, Individual};
pub use mutation::{MutationMethod, UniformMutation};
pub use network::{LayerTopology, Network};
pub use selection::{RouletteWheelSelection, SelectionMethod};
