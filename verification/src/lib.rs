//! A key-value layer over many backends, with its rules stated and proved.
//!
//! The crate holds what a store decides and computes: how identities are framed, how values
//! are encoded, when a conditional write applies, what a backend's reply means. Everything
//! that talks to a backend lives outside and hands plain values in and out.

pub mod bytes;
pub mod cas;
pub mod change;
pub mod encoding;
pub mod entry;
pub mod error;
pub mod hash;
pub mod hex;
pub mod migration;
pub mod ordered;
pub mod protocol;
pub mod store;
pub mod store_config;
pub mod text;
pub mod utils;
pub mod value;

