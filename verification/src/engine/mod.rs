//! Task engine decisions: status machine, error classification, retry and
//! key scheduling rules, progress estimation and engine events.

pub mod batch;
pub mod classify;
pub mod dispatch;
pub mod events;
pub mod keys;
pub mod progress;
pub mod queue;
pub mod status;
pub mod strategy;

pub use keys::{load_key_configs, KeyConfig, RefMapping, SecretStore};
