[package]
name = "bigtwo"
version = "0.1.0"
edition = "2021"
publish = false

[dependencies]
rand = "0.9"
petname = "2"
uuid = { version = "1", features = ["v4"] }
serde = { version = "1", features = ["derive"] }
serde_json = "1"
axum = "0.8"
tokio = { version = "1", features = ["full"] }
async-trait = "0.1"
thiserror = "2"
tracing = "0.1"
tracing-subscriber = { version = "0.3", features = ["env-filter"] }
chrono = { version = "0.4", features = ["serde"] }
jsonwebtoken = "9"
tower-http = { version = "0.6", features = ["cors", "trace"] }
