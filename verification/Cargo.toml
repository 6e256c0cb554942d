[package]
name = "scenter"
version = "0.1.0"
edition = "2021"
publish = false

[dependencies]
regex = "=1.13.1"
serde = { version = "=1.0.229", features = ["derive"] }
serde_json = "=1.0.154"
quick-xml = "=0.36.2"
flate2 = "=1.1.10"
anyhow = "=1.0.104"
log = "=0.4.35"
libc = "=0.2.191"
env_logger = "=0.11.11"
futures-util = "=0.3.34"
tokio = { version = "=1.54.1", features = ["rt", "rt-multi-thread", "macros", "time", "process", "sync"] }
reqwest = { version = "=0.12.28", default-features = false, features = ["json", "stream", "rustls-tls"] }
ksni = "0.2"
notify-rust = "4"
image = { version = "0.25", default-features = false, features = ["png"] }
