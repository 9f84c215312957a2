[package]
name = "funtonic"
version = "0.1.0"
edition = "2021"
publish = false

[dependencies]
ring = "*"
data-encoding = "*"
rand = "*"
shellish_parse = "*"
serde = { version = "*", features = ["derive"] }
serde_yaml = "*"
serde_json = "*"
tokio = { version = "*", features = ["rt", "process", "io-util", "sync", "macros", "time"] }
anyhow = "*"
