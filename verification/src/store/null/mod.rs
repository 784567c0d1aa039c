//! A store that keeps nothing.

pub mod client;
pub mod store;

pub use client::{NullClient, NullConfig};
pub use store::NullStore;
