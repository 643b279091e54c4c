[package]
name = "hellcall_core"
version = "0.1.0"
edition = "2021"
publish = false

[dependencies]
base64 = "=0.22.1"
serde = { version = "=1.0.229", features = ["derive"] }
serde_json = "=1.0.154"
toml = "=0.8.23"
scraper = "=0.29.0"
strsim = "=0.11.1"
rand = "=0.9.5"
reqwest = { version = "=0.12.28", default-features = false, features = ["rustls-tls", "json", "stream", "multipart"] }
tokio = { version = "=1.54.1", features = ["rt-multi-thread", "macros", "time", "fs", "io-util"] }
futures-util = "=0.3.34"
log = "=0.4.35"
anyhow = "=1.0.104"
zip = { version = "2", default-features = false, features = ["deflate"] }
tar = "0.4"
bzip2 = "*"
sevenz-rust = "*"
