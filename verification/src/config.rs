//! Type-safe application configuration.
//!
//! The configuration is read from environment variables at startup. A number
//! that cannot be read as one counts as missing.

use vstd::prelude::*;

use crate::number::{
    decimal, law_other_text_is_no_number, law_signed_number_is_read, lemma_decimal_value, parse_signed, parse_unsigned, signed_value, to_decimal,
    unsigned_value,
};

verus! {

/// The id of the one model that the server serves.
pub const MODEL_ID: &'static str = "minicpm5-1b-fable5-v2-thinking";

/// The version of the server.
pub const VERSION: &'static str = "0.1.0";

/// The environment variables that the configuration is read from.
pub struct EnvVars {
    pub model_path: Option<String>,
    pub api_key: Option<String>,
    pub server_port: Option<String>,
    pub rust_log: Option<String>,
    pub n_ctx: Option<String>,
    pub n_batch: Option<String>,
    pub n_threads: Option<String>,
    pub max_tokens: Option<String>,
}

/// Application configuration loaded at startup from environment variables.
#[derive(Debug)]
pub struct AppConfig {
    /// Path to the GGUF model file
    pub model_path: String,
    /// API key for authentication (empty = disabled)
    pub api_key: String,
    /// Server port to bind to
    pub server_port: u16,
    /// Log level (trace, debug, info, warn, error)
    pub log_level: String,
    /// LLM context size (n_ctx)
    pub n_ctx: u32,
    /// LLM batch size (n_batch)
    pub n_batch: u32,
    /// Number of CPU threads for inference
    pub n_threads: i32,
    /// Hard cap on the `max_tokens` of a request (0 = unlimited)
    pub max_tokens: u32,
}

/// The text of a variable, or the default where it is not set.
pub open spec fn text_or(var: Option<String>, default: Seq<char>) -> Seq<char> {
    match var {
        Some(s) => s@,
        None => default,
    }
}

/// The number up to `max` in a variable, or the default where it is not set or
/// holds no such number.
pub open spec fn number_or(var: Option<String>, max: nat, default: nat) -> nat {
    match var {
        Some(s) => match unsigned_value(s@, max) {
            Some(n) => n,
            None => default,
        },
        None => default,
    }
}

/// The signed number in a variable, or the default.
pub open spec fn signed_or(var: Option<String>, default: int) -> int {
    match var {
        Some(s) => match signed_value(s@) {
            Some(n) => n,
            None => default,
        },
        None => default,
    }
}

fn take_text(var: Option<String>, default: &str) -> (r: String)
    ensures
        r@ == text_or(var, default@),
{
    match var {
        Some(s) => s,
        None => default.to_string(),
    }
}

fn take_number(var: Option<String>, max: u32, default: u32) -> (r: u32)
    requires
        default <= max,
    ensures
        r == number_or(var, max as nat, default as nat),
        r <= max,
{
    match var {
        Some(s) => match parse_unsigned(s.as_str(), max as u64) {
            Some(n) => n as u32,
            None => default,
        },
        None => default,
    }
}

impl AppConfig {
    /// Load configuration from environment variables. `default_model_path` is
    /// the model file of a server to which none is named.
    pub fn load(vars: EnvVars, default_model_path: &str) -> (config: Self)
        ensures
            config.model_path@ == text_or(vars.model_path, default_model_path@),
            config.api_key@ == text_or(vars.api_key, Seq::empty()),
            config.server_port == number_or(vars.server_port, 65535, 4010),
            config.log_level@ == text_or(vars.rust_log, "info"@),
            config.n_ctx == number_or(vars.n_ctx, 4294967295, 8192),
            config.n_batch == number_or(vars.n_batch, 4294967295, 512),
            config.n_threads == signed_or(vars.n_threads, 4),
            config.max_tokens == number_or(vars.max_tokens, 4294967295, 2048),
    {
        proof {
            reveal_strlit("");
            assert(""@ =~= Seq::<char>::empty());
        }
        let n_threads: i32 = match vars.n_threads {
            Some(s) => match parse_signed(s.as_str()) {
                Some(n) => n,
                None => 4,
            },
            None => 4,
        };
        AppConfig {
            model_path: take_text(vars.model_path, default_model_path),
            api_key: take_text(vars.api_key, ""),
            server_port: take_number(vars.server_port, 65535, 4010) as u16,
            log_level: take_text(vars.rust_log, "info"),
            n_ctx: take_number(vars.n_ctx, 4294967295, 8192),
            n_batch: take_number(vars.n_batch, 4294967295, 512),
            n_threads,
            max_tokens: take_number(vars.max_tokens, 4294967295, 2048),
        }
    }
}

/// The address that the server listens on: the port on every interface.
pub fn listen_address(port: u16) -> (r: String)
    ensures
        r@ == "0.0.0.0:"@ + decimal(port as nat),
{
    "0.0.0.0:".to_string().concat(to_decimal(port as u64).as_str())
}

/// A number that a variable writes in decimal is the number that is read from
/// it, whatever the default.
pub proof fn law_number_is_read_back(var: String, n: nat, max: nat, default: nat)
    requires
        var@ == decimal(n),
        n <= max,
    ensures
        number_or(Some(var), max, default) == n,
{
    lemma_decimal_value(n);
}

/// A variable that is set says what it says; one that is not set, or that holds
/// no number in range where a number is wanted, leaves the default.
pub proof fn law_variable_or_default(
    var: String,
    text: Seq<char>,
    n: nat,
    max: nat,
    default: nat,
    signed: int,
)
    ensures
        text_or(Some(var), text) == var@,
        text_or(None, text) == text,
        number_or(None, max, default) == default,
        signed_or(None, signed) == signed,
        var@ == decimal(n) ==> number_or(Some(var), max, default) == if n <= max {
            n
        } else {
            default
        },
        var@ == decimal(n) ==> signed_or(Some(var), signed) == if n <= 0x7fff_ffff {
            n as int
        } else {
            signed
        },
        var@ == seq!['-'] + decimal(n) ==> signed_or(Some(var), signed) == if n <= 0x8000_0000 {
            -(n as int)
        } else {
            signed
        },
        var@.len() == 0 ==> number_or(Some(var), max, default) == default && signed_or(
            Some(var),
            signed,
        ) == signed,
{
    law_signed_number_is_read(n, max);
    law_other_text_is_no_number(Seq::empty(), 0, max);
    if var@.len() == 0 {
        assert(var@ =~= Seq::<char>::empty());
    }
}

} // verus!
