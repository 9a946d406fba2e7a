[package]
name = "forge"
version = "0.1.0"
edition = "2021"
publish = false

[dependencies]
anyhow = "=1.0.104"
arrow-array = "=60.1.0"
arrow-schema = "=60.1.0"
clap = { version = "=4.6.7", features = ["derive"] }
futures-util = "=0.3.34"
governor = "=0.10.4"
object_store = { version = "=0.14.2", features = ["aws", "gcp", "azure"] }
parquet = { version = "=60.1.0", default-features = false, features = ["arrow", "snap"] }
rand = "=0.8.8"
redb = "=2.6.4"
reqwest = { version = "=0.12.28", default-features = false, features = ["json", "rustls-tls"] }
rusqlite = { version = "=0.41.1", features = ["bundled"] }
serde = { version = "=1.0.229", features = ["derive"] }
serde_json = { version = "=1.0.154", features = ["float_roundtrip"] }
tiny_http = "=0.12.0"
tokio = { version = "=1.54.1", features = ["full"] }
tracing = "=0.1.44"
tracing-subscriber = { version = "0.3", features = ["env-filter"] }
url = "=2.5.8"
