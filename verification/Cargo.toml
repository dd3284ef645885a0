[package]
name = "tgforward"
version = "0.1.0"
edition = "2021"
publish = false

[dependencies]
regex = "1"
siphasher = "1"
serde = { version = "1", features = ["derive"] }
serde_json = "1"
anyhow = "1"
dotenv = "0.15"
tracing = "0.1"
tracing-subscriber = { version = "0.3", features = ["env-filter"] }
tracing-appender = "0.2"
tokio = { version = "1", features = ["full"] }
image = { version = "0.25", default-features = false, features = ["jpeg", "png"] }
grammers-client = "*"
grammers-session = "*"
grammers-mtsender = "*"
