[package]
name = "rustcdc"
version = "0.1.0"
edition = "2021"
publish = false

[dependencies]
ahash = "=0.8.12"
async-trait = "=0.1.92"
base64 = "=0.22.1"
futures-util = { version = "=0.3.34", default-features = false, features = ["std"] }
mysql_async = { version = "=0.37.1", default-features = false, features = ["minimal-rust", "binlog", "rustls-tls", "tls12", "ring"] }
mysql_common = { version = "=0.37.3", default-features = false, features = ["binlog"] }
rustls = { version = "=0.23.46", default-features = false, features = ["std", "ring", "tls12"] }
serde = { version = "=1.0.229", features = ["derive"] }
serde_json = "=1.0.154"
tokio = { version = "=1.54.1", features = ["rt", "time", "sync", "macros"] }
tokio-postgres = "=0.7.18"
tokio-postgres-rustls = { version = "=0.14.0", default-features = false }
tracing = "=0.1.44"
