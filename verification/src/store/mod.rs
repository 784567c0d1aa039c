//! The stores.

pub mod batch;
pub mod memory;
pub mod mongodb;
pub mod null;
pub mod opensearch;
pub mod page;
pub mod postgres;
pub mod redis;
pub mod rocksdb;
pub mod s3;
pub mod simple;
pub mod sqlite;
pub mod valkey;
pub mod vault;

