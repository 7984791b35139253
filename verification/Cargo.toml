[package]
name = "loadgen"
version = "0.1.0"
edition = "2021"
publish = false

[dependencies]
chrono = "0.4"
rand = "*"
serde_json = "*"
http = "*"
serde = { version = "1", features = ["derive"] }
serde_yaml = "*"
humantime = "*"
log = "*"
env_logger = "*"
tokio = { version = "1", features = ["rt", "rt-multi-thread", "macros", "net", "time", "sync", "io-util"] }
