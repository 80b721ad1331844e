[package]
name = "tunnelto_server"
version = "0.1.0"
edition = "2021"
publish = false

[dependencies]
futures = "0.3"
httparse = "=1.10.1"
reqwest = { version = "0.11", default-features = false, features = ["json", "rustls-tls"] }
serde = { version = "1", features = ["derive"] }
serde_json = "1"
tokio = { version = "1", features = ["io-util", "net", "rt", "time"] }
tracing = "0.1"
url = "=2.5.8"
uuid = "=1.29.0"
warp = "0.3"
