[package]
name = "quic_proxy"
version = "0.1.0"
edition = "2021"
publish = false

[dependencies]
anyhow = "1"
base64 = "0.21"
clap = { version = "4", features = ["derive"] }
pin-project-lite = "0.2"
quinn = "0.10"
rustls = "0.21"
rustls-pemfile = "1"
tokio = { version = "1", features = ["full"] }
tokio-util = "0.7"
url = "2"
