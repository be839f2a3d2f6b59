[package]
name = "rustybit"
version = "0.1.0"
edition = "2021"
publish = false

[dependencies]
sha1 = "0.10"
crypto-hash = "0.3"
rand = "0.8"
form_urlencoded = "1"
serde = { version = "1", features = ["derive"] }
serde_bytes = "0.11"
serde_with = "3"
serde_urlencoded = "0.7"
anyhow = "1"
thiserror = "1"
clap = { version = "4", features = ["derive"] }
tokio = { version = "1", features = ["full"] }
tracing = "0.1"
tracing-subscriber = { version = "0.3", features = ["env-filter"] }
url = "2"
reqwest = { version = "0.12", default-features = false }
bitvec = "1"
bytes = "1"
governor = "0.6"
