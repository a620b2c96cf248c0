[package]
name = "defing"
version = "0.1.0"
edition = "2021"
publish = false

[dependencies]
aes-gcm = "=0.10.3"
axum = "0.8"
base64 = "=0.22.1"
clap = { version = "4", features = ["derive", "env"] }
futures = "0.3"
openraft = { version = "=0.9.25", features = ["serde", "storage-v2"] }
rand = "=0.8.8"
redb = "4.1"
reqwest = { version = "0.12", default-features = false, features = ["json"] }
serde = { version = "1", features = ["derive"] }
serde_json = "=1.0.154"
serde_yaml = "=0.9.34"
sha2 = "=0.10.9"
thiserror = "1"
tokio = { version = "1", features = ["full"] }
tokio-stream = { version = "0.1", features = ["sync"] }
toml = "=0.8.23"
tracing = "0.1"
tracing-subscriber = { version = "0.3", features = ["env-filter"] }
