[package]
name = "blacklist_reputation"
version = "0.1.0"
edition = "2021"
publish = false

[dependencies]
anyhow = "*"
chrono = "*"
flexi_logger = "*"
humantime = "*"
humantime-serde = "*"
log = "*"
serde = { version = "*", features = ["derive"] }
serde_yaml = "*"
structopt = "0.3"
tokio = { version = "1", features = ["rt-multi-thread", "time"] }
ya-client-model = "*"
