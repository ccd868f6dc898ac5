//! Chat completion: text processing of what the model wrote.

pub mod cleaning;
pub mod cleaning_laws;
pub mod history;
pub mod markup;
pub mod markup_laws;
pub mod prompt;
pub mod prompt_laws;
pub mod request;
pub mod round_trip;
pub mod sampler;
pub mod tool_calls;

pub use cleaning::clean_text;
pub use markup::{split_stream_chunk, strip_markup};
pub use prompt::build_prompt;
pub use request::{token_limit, validate_model};
pub use sampler::{build_sampler, SamplerParams};
pub use tool_calls::parse_tool_calls;
