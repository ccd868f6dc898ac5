//! The data that all layers share, and the errors of the model layer.

pub mod entity;
pub mod error;

pub use error::LlmError;
