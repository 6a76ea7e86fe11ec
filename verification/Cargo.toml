[package]
name = "shbox"
version = "0.1.0"
edition = "2021"
publish = false

[dependencies]
bytes = "1"
futures-util = "0.3"
libc = "0.2"
rand = "*"
russh = "0.63"
serde = { version = "1", features = ["derive"] }
serde_with = "3"
tokio = { version = "1", features = ["full"] }
tokio-tungstenite = "*"
toml = "*"
tracing = "0.1"
