//! The configuration of a SQLite store.

pub mod config;

pub use config::SqliteConfig;
