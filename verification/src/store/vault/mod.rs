//! A store in Vault's key-value engine: its paths, and how its replies are judged.

pub mod config;
pub mod store;

pub use config::{map_vault_err, VaultConfig};
pub use store::{secret_path, VaultFailure, VaultStore};
