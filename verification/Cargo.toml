[package]
name = "llama_server_rs"
version = "0.1.0"
edition = "2021"
publish = false

[dependencies]
anyhow = "1"
serde = { version = "1", features = ["derive"] }
serde_json = "1"
uuid = { version = "1", features = ["v4"] }
thiserror = "1"
clap = { version = "4", features = ["derive"] }
tokio = { version = "1", features = ["full"] }
tokio-util = "0.7"
axum = "0.7"
axum-server = { version = "0.7", features = ["tls-rustls"] }
bytes = "1"
async-stream = "0.3"
tower = "0.4"
tower-http = { version = "0.5", features = ["trace", "request-id", "cors"] }
tracing-subscriber = "0.3"
hf-hub = "0.3"
encoding_rs = "0.8"
