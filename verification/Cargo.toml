[package]
name = "umay"
version = "0.1.0"
edition = "2021"
publish = false

[dependencies]
rand = "0.8"
tokio = { version = "1", features = ["full"] }
tokio-rustls = "0.26"
rustls = "0.23"
rustls-pemfile = "2"
hickory-resolver = "0.24"
arc-swap = "1"
socket2 = "0.5"
tokio-tungstenite = "0.24"
futures = "0.3"
rcgen = "0.13"
serde = { version = "1", features = ["derive"] }
config = "0.14"
anyhow = "1"
