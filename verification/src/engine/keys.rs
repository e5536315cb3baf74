//! Runtime key configuration.

use vstd::prelude::*;
use crate::db::api_keys::{ApiKeyRow, MAX_CONCURRENCY};
use crate::error::AppError;

verus! {

/// Runtime configuration of one key, with its secret in clear (lives only
/// inside the engine).
#[derive(Clone)]
pub struct KeyConfig {
    pub id: i64,
    pub base_url: String,
    pub model: String,
    pub api_key: String,
    pub concurrency_limit: u32,
    pub enabled: bool,
    /// Requests per minute; `None` = unlimited.
    pub rpm_limit: Option<u32>,
}

/// One attachment: a reference image bound to a prompt group.
#[derive(Debug, Clone, Copy)]
pub struct RefMapping {
    pub ref_image_id: i64,
    pub prompt_group_id: i64,
}

/// Credential store: the secret stored under an account name. Lookups are
/// I/O (the system keyring); callers ask it once per key row, for the row's
/// `keyring_account`, and hand the answers to `load_key_configs`.
pub trait SecretStore {
    /// The secret under `account`; `Ok(None)` when there is none.
    fn get(&self, account: &str) -> Result<Option<String>, AppError>;
}

/// Concurrency limit kept within `1..=MAX_CONCURRENCY`.
pub open spec fn clamped_concurrency(n: i64) -> u32 {
    if n < 1 {
        1
    } else if n > MAX_CONCURRENCY {
        MAX_CONCURRENCY as u32
    } else {
        n as u32
    }
}

/// Positive RPM limits that fit `u32`; anything else means unlimited.
pub open spec fn rpm_of(n: Option<i64>) -> Option<u32> {
    match n {
        Some(v) => if 0 < v <= u32::MAX {
            Some(v as u32)
        } else {
            None
        },
        None => None,
    }
}

/// Whether `c` is the configuration of `row` with secret `secret`.
pub open spec fn config_of(c: KeyConfig, row: ApiKeyRow, secret: Seq<char>) -> bool {
    &&& c.id == row.id
    &&& c.base_url@ == row.base_url@
    &&& c.model@ == row.model@
    &&& c.api_key@ == secret
    &&& c.concurrency_limit == clamped_concurrency(row.concurrency_limit)
    &&& c.enabled == (row.enabled != 0)
    &&& c.rpm_limit == rpm_of(row.rpm_limit)
}

/// The configuration of `row` with the secret `secret`.
pub fn key_config(row: &ApiKeyRow, secret: String) -> (c: KeyConfig)
    ensures
        config_of(c, *row, secret@),
{
    let n = row.concurrency_limit;
    let limit: u32 = if n < 1 {
        1
    } else if n > MAX_CONCURRENCY {
        MAX_CONCURRENCY as u32
    } else {
        n as u32
    };
    let rpm = match row.rpm_limit {
        Some(v) => if 0 < v && v <= u32::MAX as i64 {
            Some(v as u32)
        } else {
            None
        },
        None => None,
    };
    KeyConfig {
        id: row.id,
        base_url: row.base_url.clone(),
        model: row.model.clone(),
        api_key: secret,
        concurrency_limit: limit,
        enabled: row.enabled != 0,
        rpm_limit: rpm,
    }
}

/// `configs` are the configurations of the `rows` whose secret lookup gave
/// a secret (`found[i]`), in row order.
pub open spec fn configs_match(configs: Seq<KeyConfig>, rows: Seq<ApiKeyRow>, found: Seq<Option<Seq<char>>>) -> bool
    decreases rows.len(),
{
    if rows.len() == 0 {
        configs.len() == 0
    } else {
        match found.last() {
            Some(s) => configs.len() > 0 && config_of(configs.last(), rows.last(), s)
                && configs_match(configs.drop_last(), rows.drop_last(), found.drop_last()),
            None => configs_match(configs, rows.drop_last(), found.drop_last()),
        }
    }
}

/// The view of an optional secret.
pub open spec fn opt_view(f: Option<String>) -> Option<Seq<char>> {
    match f {
        Some(s) => Some(s@),
        None => None,
    }
}

/// Key configurations for the rows whose secret the store holds:
/// `found[i]` is the store's answer for `rows[i].keyring_account` (`None`
/// when it holds no secret or the lookup failed); the rows with a secret
/// are kept, in order, each with its secret, and the others skipped.
pub fn load_key_configs(rows: &[ApiKeyRow], found: &[Option<String>]) -> (r: Vec<KeyConfig>)
    requires
        found@.len() == rows@.len(),
    ensures
        configs_match(r@, rows@, found@.map_values(|f: Option<String>| opt_view(f))),
{
    let ghost fv = found@.map_values(|f: Option<String>| opt_view(f));
    let mut out: Vec<KeyConfig> = Vec::new();
    let mut i: usize = 0;
    assert(rows@.take(0) =~= Seq::<ApiKeyRow>::empty());
    assert(fv.take(0) =~= Seq::<Option<Seq<char>>>::empty());
    while i < rows.len()
        invariant
            i <= rows@.len(),
            found@.len() == rows@.len(),
            fv == found@.map_values(|f: Option<String>| opt_view(f)),
            configs_match(out@, rows@.take(i as int), fv.take(i as int)),
        decreases rows@.len() - i,
    {
        let row = &rows[i];
        let ghost o0 = out@;
        match &found[i] {
            Some(s) => {
                let c = key_config(row, s.clone());
                out.push(c);
                proof {
                    assert(out@.drop_last() =~= o0);
                }
            },
            None => {},
        }
        proof {
            assert(rows@.take(i + 1).drop_last() =~= rows@.take(i as int));
            assert(fv.take(i + 1).drop_last() =~= fv.take(i as int));
            assert(fv.take(i + 1).last() == opt_view(found@[i as int]));
        }
        i += 1;
    }
    assert(rows@.take(rows@.len() as int) =~= rows@);
    assert(fv.take(fv.len() as int) =~= fv);
    out
}

} // verus!
