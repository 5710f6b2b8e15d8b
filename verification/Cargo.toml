[package]
name = "edge_lb"
version = "0.1.0"
edition = "2021"
publish = false

[dependencies]
anyhow = "1"
aya = "0.13.1"
clap = { version = "4", features = ["derive"] }
futures-util = "0.3"
hmac = "=0.12.1"
libc = "0.2"
reqwest = { version = "0.12", default-features = false, features = ["blocking", "rustls-tls"] }
rtnetlink = "0.20"
serde = { version = "1", features = ["derive"] }
serde_json = "=1.0.154"
sha2 = "=0.10.9"
tiny_http = "0.12"
tokio = { version = "1", features = ["rt", "time", "net"] }
tracing = "0.1"
wren-bfd = "=0.3.1"
