//! The health report of the API server.
use vstd::prelude::*;

verus! {

broadcast use vstd::string::group_string_axioms;

/// The state of one provider.
#[derive(Debug, Clone)]
pub struct ProviderHealth {
    pub status: String,
    pub reason: Option<String>,
}

/// The health report.
#[derive(Debug, Clone)]
pub struct HealthResponse {
    pub status: String,
    pub timestamp: String,
    pub uptime_seconds: u64,
    pub version: String,
    /// Provider name and state: Modrinth first, then CurseForge.
    pub providers: Vec<(String, ProviderHealth)>,
    pub message: Option<String>,
}

/// A provider state with the given status and reason.
pub open spec fn health_is(h: ProviderHealth, status: Seq<char>, reason: Option<Seq<char>>) -> bool {
    h.status@ == status && match (h.reason, reason) {
        (Some(a), Some(b)) => a@ == b,
        (None, None) => true,
        _ => false,
    }
}

/// The health report: Modrinth is always operational; without a CurseForge key the server and
/// CurseForge are degraded (reason `missing_api_key`) and a message says so, else all is healthy.
pub fn health_report(has_curseforge_key: bool, timestamp: String, uptime_seconds: u64, version: String) -> (h:
    HealthResponse)
    ensures
        h.timestamp == timestamp,
        h.uptime_seconds == uptime_seconds,
        h.version == version,
        h.providers@.len() == 2,
        h.providers@[0].0@ == "Modrinth"@,
        health_is(h.providers@[0].1, "operational"@, None),
        h.providers@[1].0@ == "CurseForge"@,
        has_curseforge_key ==> {
            &&& h.status@ == "healthy"@
            &&& h.message is None
            &&& health_is(h.providers@[1].1, "operational"@, None)
        },
        !has_curseforge_key ==> {
            &&& h.status@ == "degraded"@
            &&& h.message matches Some(m) && m@
                == "CurseForge API key missing. Searches run in degraded mode."@
            &&& health_is(h.providers@[1].1, "degraded"@, Some("missing_api_key"@))
        },
{
    let mut providers: Vec<(String, ProviderHealth)> = Vec::new();
    providers.push(
        ("Modrinth".to_string(), ProviderHealth { status: "operational".to_string(), reason: None }),
    );
    let (status, message, curseforge) = if has_curseforge_key {
        (
            "healthy".to_string(),
            None,
            ProviderHealth { status: "operational".to_string(), reason: None },
        )
    } else {
        (
            "degraded".to_string(),
            Some("CurseForge API key missing. Searches run in degraded mode.".to_string()),
            ProviderHealth {
                status: "degraded".to_string(),
                reason: Some("missing_api_key".to_string()),
            },
        )
    };
    providers.push(("CurseForge".to_string(), curseforge));
    HealthResponse { status, timestamp, uptime_seconds, version, providers, message }
}

} // verus!
