//! A store in Valkey: its namespaces and the registry of its collections.

pub mod config;
pub mod store;

pub use config::{map_valkey_err, ValkeyConfig};
pub use store::{CollectionsPlan, ValkeyStore};
