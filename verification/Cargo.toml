[package]
name = "openkeyv"
version = "0.1.0"
edition = "2021"
publish = false

[dependencies]
async-trait = "0.1"
aws-config = { version = "=1.13.0", default-features = false, features = ["behavior-version-latest", "rt-tokio"] }
aws-sdk-s3 = { version = "=1.157.0", default-features = false, features = ["behavior-version-latest", "rt-tokio"] }
base64 = "=0.22.1"
blake3 = { version = "=1.8.7", features = ["pure"] }
bytes = "1"
chrono = { version = "=0.4.45", default-features = false, features = ["clock", "serde", "std"] }
dashmap = "=6.2.1"
futures-util = "0.3"
getrandom = "=0.3.4"
mongodb = { version = "=3.9.1", default-features = false, features = ["compat-3-0-0", "rustls-tls"] }
opensearch = { version = "=2.3.0", default-features = false }
redis = { version = "=0.32.7", default-features = false, features = ["aio", "connection-manager", "script", "streams", "tokio-comp"] }
rusqlite = { version = "=0.32.1", features = ["bundled"] }
serde = { version = "1", features = ["derive"] }
serde_json = "1"
serde_with = { version = "=3.12.0", default-features = false }
socket2 = "=0.6.5"
sqlx = { version = "=0.8.6", default-features = false, features = ["chrono", "postgres", "runtime-tokio"] }
tokio = { version = "1", features = ["macros", "rt-multi-thread", "sync", "time"] }
vaultrs = { version = "=0.7.4", default-features = false, features = ["rustls"] }
