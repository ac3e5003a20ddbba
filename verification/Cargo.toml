[package]
name = "yt-downloader-webui"
version = "0.2.0"
edition = "2021"
publish = false

[dependencies]
anyhow = "1"
askama = "=0.16.1"
async-stream = "0.3"
axum = "0.8"
clap = { version = "4", features = ["derive"] }
dirs = "*"
form_urlencoded = "=1.2.2"
futures-util = "0.3"
mime_guess = "=2.0.5"
reqwest = { version = "0.12", default-features = false, features = ["rustls-tls"] }
serde = { version = "1", features = ["derive"] }
serde_json = { version = "=1.0.154", features = ["float_roundtrip", "preserve_order"] }
sha1 = "=0.10.7"
time = { version = "=0.3.55", features = ["formatting", "parsing"] }
tokio = { version = "1", features = ["full"] }
tokio-util = { version = "=0.7.20", features = ["io"] }
tracing = "0.1"
tracing-journald = "0.3"
tracing-subscriber = { version = "0.3", features = ["env-filter"] }
