//! The fixed parameters of the simulation.

use vstd::prelude::*;

verus! {

/// Number of columns of every layer.
pub const WIDTH: usize = 20;

/// Number of rows of every layer.
pub const HEIGHT: usize = 20;

/// Number of cells of every layer: `WIDTH` times `HEIGHT`.
pub const CELLS: usize = 400;

/// Threshold that a response is held against: above it an input looks like a
/// rectangle, below it like a circle, and at it like neither.
pub const BIAS: i128 = 20;

/// Number of rectangle and circle pairs that one pass presents.
pub const SAMPLE_SIZE: usize = 75;

/// Largest number of passes that training runs.
pub const TRAIN_PASSES: usize = 2000;

/// Seed of the stream that every training pass starts from.
pub const TRAIN_SEED: u64 = 69;

/// Seed of the stream that every evaluation starts from.
pub const CHECK_SEED: u64 = 420;

} // verus!
