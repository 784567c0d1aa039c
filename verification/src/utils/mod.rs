//! What the stores share: identities, sanitizing, times and retries.

pub mod compound;
pub mod retry;
pub mod sanitize;
pub mod ttl;
