//! What the server answers.

pub mod agreement;
pub mod answer_laws;
pub mod auth;
pub mod chat;
pub mod error;
pub mod health;
pub mod metrics;
pub mod metrics_laws;
pub mod models;
pub mod process;
pub mod stream_laws;
pub mod streaming;
