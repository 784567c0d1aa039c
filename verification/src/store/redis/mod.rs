//! A store in Redis: its keys, its change feed, and how its replies are judged.

pub mod config;
pub mod feed;
pub mod laws;
pub mod reply;
pub mod scan;
pub mod store;
pub mod write;

pub use config::{map_redis_err, RedisConfig};
pub use feed::RedisChangeStream;
pub use store::RedisStore;
