[package]
name = "underpane"
version = "0.1.0"
edition = "2021"
publish = false

[dependencies]
anyhow = "1"
indexmap = { version = "2", features = ["serde"] }
mime_guess = "2"
notify = "*"
percent-encoding = "2"
serde = { version = "1", features = ["derive"] }
serde_json = "1"
tokio = { version = "1", features = ["sync", "time", "fs", "io-util", "macros", "rt"] }
toml = "*"
url = "2"
