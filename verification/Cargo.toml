[package]
name = "urlharvest"
version = "0.1.0"
edition = "2021"
publish = false

[dependencies]
regex = "*"
rusqlite = { version = "*", features = ["bundled"] }
chrono = "*"
clap = { version = "*", features = ["derive"] }
serde = { version = "*", features = ["derive"] }
serde_json = "*"
shellexpand = "*"
anyhow = "*"
log = "*"
env_logger = "*"
linemux = "*"
tokio = { version = "*", features = ["macros", "rt-multi-thread", "time"] }
