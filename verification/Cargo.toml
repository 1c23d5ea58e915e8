[package]
name = "zmqtt2prom"
version = "0.1.0"
edition = "2021"
publish = false

[dependencies]
uuid = "=1.29.0"
getrandom = "=0.4.3"
axum = "=0.8.9"
clap = { version = "=4.6.7", features = ["derive", "env"] }
prometheus = { version = "=0.13.4", default-features = false }
rumqttc = { version = "=0.24.0", default-features = false }
serde = { version = "=1.0.229", features = ["derive"] }
serde_json = "=1.0.154"
thiserror = "=2.0.21"
tokio = { version = "=1.54.1", features = ["full"] }
tracing = "=0.1.44"
tracing-subscriber = { version = "=0.3.23", features = ["env-filter"] }
