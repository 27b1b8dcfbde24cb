[package]
name = "trojan_x"
version = "0.1.0"
edition = "2021"
publish = false

[dependencies]
sha2 = "0.10"
tokio = { version = "1", features = ["rt-multi-thread", "net", "io-util", "time", "sync", "signal", "macros"] }
tokio-rustls = "0.24"
rustls-pemfile = "1"
reqwest = { version = "0.11", default-features = false, features = ["json"] }
serde = { version = "1", features = ["derive"] }
serde_json = "1"
log = "0.4"
simple_logger = "*"
form_urlencoded = "1"
