//! The decisions of the inference engine, apart from the calls into the model.

pub mod generation;
pub mod pieces;
