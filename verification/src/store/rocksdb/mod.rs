//! A store in RocksDB: its keys, and what is read off them.

pub mod config;
pub mod store;
pub mod walk;

pub use config::{map_rocksdb_err, RocksDBConfig};
pub use store::{RocksDBStore, RocksReply};
pub use walk::{CollectionWalk, DoomedWalk, KeyWalk};
