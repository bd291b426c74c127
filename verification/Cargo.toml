[package]
name = "httped"
version = "0.1.0"
edition = "2021"
publish = false

[dependencies]
anyhow = "=1.0.104"
async-stream = "=0.3.6"
bytes = "=1.12.1"
clap = { version = "=4.6.7", features = ["derive", "env"] }
data-encoding = "=2.11.1"
percent-encoding = "=2.3.2"
rand = { version = "=0.10.3", features = ["chacha"] }
regex = "=1.13.1"
rust-embed = "=8.13.0"
salvo = { version = "=1.1.0", features = ["oapi", "basic-auth", "sse", "websocket", "serve-static", "compression", "logging", "timeout", "trailing-slash"] }
serde = { version = "=1.0.229", features = ["derive"] }
serde_json = "=1.0.154"
tokio = { version = "=1.54.1", features = ["full"] }
tracing = "=0.1.44"
tracing-subscriber = "=0.3.23"
ulid = "=3.0.0"
uuid = { version = "=1.29.1", features = ["v4", "v7"] }
