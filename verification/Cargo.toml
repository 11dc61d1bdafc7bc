[package]
name = "people_clock"
version = "0.1.0"
edition = "2021"
publish = false

[dependencies]
secstr = "*"
serde_json = "*"
url = "*"
serde = { version = "*", features = ["derive"] }
reqwest = { version = "*", default-features = false, features = ["json"] }
tokio = { version = "*", features = ["rt-multi-thread", "macros", "time"] }
log = "*"
env_logger = "*"
anyhow = "*"
rocket = { version = "*", features = ["json"] }
