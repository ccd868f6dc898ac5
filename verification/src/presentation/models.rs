//! Models list endpoint.

use vstd::prelude::*;

use super::health::reports_health;
use crate::application::chat::request::is_served;
use crate::config::MODEL_ID;
use crate::domain::entity::{HealthResponse, ModelInfo, ModelsResponse};
use crate::identity::now_timestamp;

verus! {

/// The list is the one served model.
pub open spec fn lists_served_model(r: ModelsResponse) -> bool {
    &&& r.object@ == "list"@
    &&& r.data@.len() == 1
    &&& r.data@[0].id@ == MODEL_ID@
    &&& r.data@[0].object@ == "model"@
    &&& r.data@[0].owned_by@ == "asepharyana"@
}

/// The list of models, made at the time `created`.
pub fn models_at(created: i64) -> (r: ModelsResponse)
    ensures
        lists_served_model(r),
        r.data@[0].created == created,
{
    let info = ModelInfo {
        id: MODEL_ID.to_string(),
        object: "model".to_string(),
        created,
        owned_by: "asepharyana".to_string(),
    };
    ModelsResponse { object: "list".to_string(), data: vec![info] }
}

/// GET /v1/models — the list of models, made now.
pub fn list_models() -> (r: ModelsResponse)
    ensures
        lists_served_model(r),
{
    models_at(now_timestamp())
}

/// The server speaks of one model: the one that the health check reports is the
/// one that is listed, and a request for it is served.
pub proof fn law_one_model(health: HealthResponse, uptime_s: u64, n_ctx: u32, models: ModelsResponse)
    requires
        reports_health(health, uptime_s, n_ctx),
        lists_served_model(models),
    ensures
        health.model@ == models.data@[0].id@,
        is_served(models.data@[0].id@),
{
}

/// The list holds the one model and says what it is and whose.
pub proof fn law_list_describes_model(models: ModelsResponse)
    requires
        lists_served_model(models),
    ensures
        models.object@ == "list"@,
        models.data@.len() == 1,
        models.data@[0].object@ == "model"@,
        models.data@[0].owned_by@ == "asepharyana"@,
        forall|name: Seq<char>| #[trigger]
            is_served(name) <==> name == models.data@[0].id@,
{
}

} // verus!
