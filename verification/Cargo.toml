[package]
name = "tamawiki"
version = "0.1.0"
edition = "2021"
publish = false

[dependencies]
sha1 = "0.10"
base64 = "0.13"
serde_urlencoded = "0.7"
serde = { version = "1", features = ["derive"] }
serde_json = "1"
hyper = { version = "0.14", features = ["server", "http1", "tcp", "runtime"] }
futures = "0.3"
tokio = { version = "1", features = ["rt-multi-thread", "macros", "sync", "net"] }
tokio-tungstenite = "0.20"
http = "0.2"
hyper-staticfile = "0.9"
tungstenite = "0.20"
tera = "1"
lazy_static = "1"
clap = "2"
