//! A store in a PostgreSQL table: its statements, its schema and how its rows are read.

pub mod config;
pub mod laws;
pub mod setup;
pub mod store;

pub use config::PostgresConfig;
pub use setup::{ColumnInfo, ConstraintInfo, IndexInfo, SetupReply, SetupStage};
pub use store::{PostgresStore, StoredRow};
