//! A store in memory, with revisions, a bounded change log and an optional size limit.

pub mod bounds;
pub mod capacity;
pub mod client;
pub mod config;
pub mod laws;
pub mod shelf;
pub mod store;

pub use client::{MemoryChangeStream, CHANGE_RETENTION};
pub use config::{MemoryConfig, SeedData};
pub use store::MemoryStore;
