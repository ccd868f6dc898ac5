//! What a request asks for and what it is granted.

use vstd::prelude::*;

use crate::config::MODEL_ID;
use crate::text::same_text;

verus! {

/// The model is the one that is served.
pub open spec fn is_served(model: Seq<char>) -> bool {
    model == MODEL_ID@
}

/// What is said of a model that is not served.
pub open spec fn unknown_model(model: Seq<char>) -> Seq<char> {
    "Unknown model '"@ + model + "'. Available: "@ + MODEL_ID@
}

/// Validate that the requested model matches the single served model.
pub fn validate_model(model: &str) -> (r: Result<(), String>)
    ensures
        r is Ok <==> is_served(model@),
        r matches Err(e) ==> e@ == unknown_model(model@),
{
    if same_text(model, MODEL_ID) {
        Ok(())
    } else {
        let quoted = "Unknown model '".to_string().concat(model);
        Err(quoted.concat("'. Available: ").concat(MODEL_ID))
    }
}

/// The number of tokens that a request may generate: what it asks for, 256
/// where it does not say, and no more than the configured cap. A cap of 0 is
/// none.
pub open spec fn granted_tokens(asked: Option<u32>, cap: u32) -> u32 {
    let wanted = match asked {
        Some(n) => n,
        None => 256,
    };
    if cap != 0 && cap < wanted {
        cap
    } else {
        wanted
    }
}

/// The number of tokens that a request may generate.
pub fn token_limit(asked: Option<u32>, cap: u32) -> (n: u32)
    ensures
        n == granted_tokens(asked, cap),
        cap != 0 ==> n <= cap,
        asked matches Some(k) ==> n <= k,
{
    let wanted: u32 = match asked {
        Some(n) => n,
        None => 256,
    };
    if cap != 0 && cap < wanted {
        cap
    } else {
        wanted
    }
}

/// One model is served, and a refusal names the model that was asked for, in
/// quotes, and the one that there is.
pub proof fn law_refusal_names_models(model: Seq<char>)
    ensures
        is_served("minicpm5-1b-fable5-v2-thinking"@),
        is_served(model) ==> model == "minicpm5-1b-fable5-v2-thinking"@,
        ({
            let text = unknown_model(model);
            let n = 15 + model.len() as int;
            &&& text.take(15) == "Unknown model '"@
            &&& text.subrange(15, n) == model
            &&& text.skip(n) == "'. Available: minicpm5-1b-fable5-v2-thinking"@
        }),
{
    reveal_strlit("Unknown model '");
    reveal_strlit("'. Available: ");
    reveal_strlit("minicpm5-1b-fable5-v2-thinking");
    reveal_strlit("'. Available: minicpm5-1b-fable5-v2-thinking");
    let text = unknown_model(model);
    let n = 15 + model.len() as int;
    assert(text.take(15) =~= "Unknown model '"@);
    assert(text.subrange(15, n) =~= model);
    assert(text.skip(n) =~= "'. Available: minicpm5-1b-fable5-v2-thinking"@);
}

} // verus!
