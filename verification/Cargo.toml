[package]
name = "bzt_rs"
version = "0.1.0"
edition = "2021"
publish = false

[dependencies]
regex = "1"
csv = "1"
serde = { version = "1", features = ["derive"] }
serde_json = "1"
serde_json_path = "*"
serde_yaml = "0.9"
toml = "0.8"
sxd-document = "0.3"
sxd-xpath = "0.4"
fake = "*"
uuid = { version = "1", features = ["v4"] }
tokio = { version = "1", features = ["full"] }
axum = { version = "0.8", features = ["ws"] }
goose = "0.17"
tracing = "0.1"
tracing-subscriber = "0.3"
clap = { version = "4", features = ["derive"] }
thiserror = "2"
futures-util = "0.3"
tokio-tungstenite = "*"
influxdb = "*"
