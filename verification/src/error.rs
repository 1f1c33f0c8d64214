//! The ways in which an operation of this library can refuse its input.

use vstd::prelude::*;

verus! {

/// A violated precondition, reported to the immediate caller. None of these
/// is ever recovered from or retried inside the library.
#[derive(Debug, Clone, Copy, PartialEq, Eq, Structural)]
pub enum Error {
    /// Selection or evolution was given a population without individuals.
    EmptyPopulation,
    /// Two genomes of unequal length were to be combined, or a genome does
    /// not have the length that a topology calls for.
    GenomeLengthMismatch,
    /// The input handed to a network does not have the width of its first
    /// layer.
    DimensionMismatch,
}

} // verus!
