//! A small supervised-learning simulator: procedurally drawn rectangle and
//! circle masks train one linear weight layer to tell the two shapes apart.

pub mod classifier;
pub mod config;
pub mod evaluator;
pub mod layer;
pub mod shapes;
pub mod stream;
pub mod trainer;
