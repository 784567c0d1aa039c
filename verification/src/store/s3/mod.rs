//! A store in S3: its object keys, and how its listings are read.

pub mod config;
pub mod laws;
pub mod listing;
pub mod names;
pub mod store;

pub use config::{build_err, S3Config};
pub use listing::{CollectionListing, KeyListing, ListPage, ListStep, Sweep};
pub use names::{decompose_s3_key, s3_collection_prefix, s3_key};
pub use store::{is_s3_not_found, S3Store};
