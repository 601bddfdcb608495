[package]
name = "socketioxide"
version = "0.1.0"
edition = "2021"
publish = false

[dependencies]
rmp = "0.8"
rmp-serde = "1"
serde = { version = "1", features = ["derive"] }
bytes = "1"
futures-core = "0.3"
http = "0.2"
http-body = "0.4"
pin-project = "1"
tokio-tungstenite = { version = "0.20", default-features = false, features = ["handshake"] }
