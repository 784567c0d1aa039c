//! A store in OpenSearch: its names, its documents and how its replies are judged.

pub mod bulk;
pub mod config;
pub mod document;
pub mod laws;
pub mod names;
pub mod purge;
pub mod reads;
pub mod reply;
pub mod scan;
pub mod store;

pub use config::{map_os_err, OpenSearchConfig};
pub use document::OpenSearchDoc;
pub use store::OpenSearchStore;
