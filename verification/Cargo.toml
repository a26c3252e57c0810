[package]
name = "ratchet"
version = "0.1.0"
edition = "2021"
publish = false

[dependencies]
bytes = "=1.12.1"
rand = "=0.8.8"
sha1 = "=0.10.7"
base64 = "=0.21.7"
futures = "=0.3.34"
httparse = "1"
tokio = { version = "=1.54.1", features = ["io-util", "sync", "net", "rt"] }
tokio-util = { version = "=0.7.20", features = ["codec"] }
