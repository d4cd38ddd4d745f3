[package]
name = "sentinel"
version = "0.1.0"
edition = "2021"
publish = false

[dependencies]
anyhow = "*"
clap = { version = "*", features = ["derive"] }
regex = "*"
serde = { version = "*", features = ["derive"] }
serde_json = "*"
sha2 = "*"
sled = "*"
thiserror = "*"
tracing = "*"
tracing-subscriber = "*"
uuid = { version = "*", features = ["v4"] }
