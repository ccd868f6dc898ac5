//! The logic of an OpenAI-compatible LLM inference server: what is asked of the
//! model, how its output is understood, and what is answered.

pub mod application;
pub mod config;
pub mod domain;
pub mod identity;
pub mod infrastructure;
pub mod json;
pub mod number;
pub mod plain;
pub mod plain_laws;
pub mod presentation;
pub mod template;
pub mod text;
pub mod text_laws;
