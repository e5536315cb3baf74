//! API key rows. The database stores a reference to the secret; the secret
//! itself lives in the credential store.

use vstd::prelude::*;

verus! {

/// Highest per-key concurrency the settings accept (raised to 100 in
/// v0.11.0; the engine clamps to this same bound, so a limit of 50 set in
/// the settings runs 50 tasks at once).
pub const MAX_CONCURRENCY: i64 = 100;

/// One row of `api_keys`.
#[derive(Debug, Clone)]
pub struct ApiKeyRow {
    pub id: i64,
    pub name: String,
    pub keyring_account: String,
    pub base_url: String,
    pub model: String,
    pub concurrency_limit: i64,
    pub enabled: i64,
    pub created_at: i64,
    /// Requests per minute; `None` = unlimited.
    pub rpm_limit: Option<i64>,
    /// Set when the key was disabled by the circuit breaker.
    pub circuit_broken: i64,
}

} // verus!
