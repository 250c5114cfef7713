[package]
name = "moget"
version = "0.1.0"
edition = "2021"
publish = false

[dependencies]
aes = "0.8"
anyhow = "1"
base64 = "0.22"
block-padding = { version = "0.3", features = ["std"] }
bytes = "1"
cbc = { version = "0.1", features = ["std"] }
cipher = { version = "0.4", features = ["std"] }
clap = { version = "4", features = ["derive"] }
clap_complete = "4"
futures = "0.3"
indicatif = "0.17"
m3u8-rs = "5"
reqwest = { version = "0.12", default-features = false, features = ["json", "rustls-tls"] }
serde = { version = "1", features = ["derive"] }
serde_urlencoded = "0.7"
tempfile = "3"
tokio = { version = "1", features = ["full"] }
tower = { version = "0.5", features = ["retry", "util"] }
tracing = "0.1"
tracing-subscriber = { version = "0.3", features = ["env-filter"] }
