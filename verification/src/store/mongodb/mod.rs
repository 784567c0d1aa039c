//! A store in MongoDB: its names, its documents and its indexes.

pub mod config;
pub mod document;
pub mod indexes;
pub mod laws;
pub mod names;
pub mod store;

pub use config::{MongoConfig, DEFAULT_DB};
pub use document::{BsonField, Condition, MongoDocument, ObservedFilter, StoredDocument};
pub use indexes::{IndexDirection, IndexStage, MongoIndex};
pub use store::{DocumentRead, MongoDBStore};
