[package]
name = "jasshaus"
version = "0.1.0"
edition = "2021"
publish = false

[dependencies]
rand = "0.8"
serde = { version = "1", features = ["derive"] }
serde_json = "1"
serde-big-array = "0.5"
axum = { version = "0.6", features = ["ws"] }
tokio = { version = "1", features = ["full"] }
futures = "0.3"
chrono = "0.4"
