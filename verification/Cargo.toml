[package]
name = "webls"
version = "0.1.0"
edition = "2021"
publish = false

[dependencies]
get-port = "=4.0.0"
axum = { version = "=0.8.9", features = ["multipart"] }
tokio = { version = "=1.54.1", features = ["full"] }
tower-http = { version = "=0.6.11", features = ["fs", "cors", "timeout"] }
serde = { version = "=1.0.229", features = ["derive"] }
serde_json = "=1.0.154"
reqwest = { version = "=0.12.28", default-features = false, features = ["json"] }
sysinfo = "=0.33.1"
local-ip-address = "=0.6.13"
