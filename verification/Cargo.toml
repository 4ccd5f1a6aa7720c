[package]
name = "nexus"
version = "0.1.0"
edition = "2021"
publish = false

[dependencies]
anyhow = "*"
async-nats = "*"
axum = "*"
chrono = "*"
clap = { version = "*", features = ["derive"] }
colored = "*"
futures = "*"
md5 = "*"
reqwest = { version = "*", default-features = false, features = ["json"] }
serde = { version = "*", features = ["derive"] }
serde_json = "*"
serde_yaml = "*"
tokio = { version = "*", features = ["full"] }
tower-http = { version = "*", features = ["trace"] }
tracing = "*"
tracing-subscriber = { version = "*", features = ["env-filter", "json"] }
uuid = { version = "*", features = ["v4"] }
wasmtime = "=48.0.5"
wasmtime-wasi = "=48.0.5"
