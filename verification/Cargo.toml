[package]
name = "rust_ingest"
version = "0.1.0"
edition = "2021"
publish = false

[dependencies]
anyhow = "1"
axum = "*"
chrono = "*"
config = { version = "*", default-features = false, features = ["toml"] }
prost = "*"
rdkafka = "*"
serde = { version = "1", features = ["derive"] }
serde_json = "1"
tokio = { version = "1", features = ["full"] }
tower = "*"
tower-http = { version = "*", features = ["cors", "trace"] }
tracing = "*"
tracing-subscriber = { version = "*", features = ["env-filter"] }
