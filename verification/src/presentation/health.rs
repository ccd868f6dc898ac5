//! Health check endpoint.

use vstd::prelude::*;

use crate::config::{MODEL_ID, VERSION};
use crate::domain::entity::HealthResponse;

verus! {

/// The server is up, under the model id, the uptime and the context size.
pub open spec fn reports_health(r: HealthResponse, uptime_s: u64, n_ctx: u32) -> bool {
    &&& r.status@ == "ok"@
    &&& r.model@ == MODEL_ID@
    &&& r.uptime_s == uptime_s
    &&& r.n_ctx == n_ctx
    &&& r.version@ == VERSION@
}

/// GET /health — reports the exact model id served by /v1/models (no extra
/// suffix), for how many seconds the server is up, and its context size.
pub fn health_check(uptime_s: u64, n_ctx: u32) -> (r: HealthResponse)
    ensures
        reports_health(r, uptime_s, n_ctx),
{
    HealthResponse {
        status: "ok".to_string(),
        model: MODEL_ID.to_string(),
        uptime_s,
        n_ctx,
        version: VERSION.to_string(),
    }
}

/// The health check says that the server is up, since when, and with what
/// context; a second check differs in the time alone.
pub proof fn law_health_tells_state(
    a: HealthResponse,
    b: HealthResponse,
    uptime_s: u64,
    later: u64,
    n_ctx: u32,
)
    requires
        reports_health(a, uptime_s, n_ctx),
        reports_health(b, later, n_ctx),
    ensures
        a.status@ == "ok"@,
        a.uptime_s == uptime_s,
        a.n_ctx == n_ctx,
        a.version@ == "0.1.0"@,
        b.uptime_s - a.uptime_s == later - uptime_s,
        b.status@ == a.status@ && b.model@ == a.model@ && b.n_ctx == a.n_ctx && b.version@
            == a.version@,
{
}

} // verus!
