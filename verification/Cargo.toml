[package]
name = "o2versioner"
version = "0.1.0"
edition = "2021"
publish = false

[dependencies]
itertools = "*"
unicase = "*"
serde = { version = "1", features = ["derive"] }
serde_json = "1"
tokio = { version = "1", features = ["full"] }
tokio-util = { version = "*", features = ["codec"] }
futures = "0.3"
bb8 = "*"
clap = { version = "*", features = ["derive"] }
chrono = "*"
csv = "1"
log = "0.4"
env_logger = "*"
tracing = "0.1"
