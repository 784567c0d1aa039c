//! A plain store in memory, for tests and development.

pub mod client;
pub mod store;

pub use client::{SimpleClient, SimpleData};
pub use store::SimpleStore;
