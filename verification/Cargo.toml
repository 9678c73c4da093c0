[package]
name = "hype"
version = "0.1.0"
edition = "2021"
publish = false

[dependencies]
url = "2"
chrono = { version = "0.4", default-features = false, features = ["alloc", "std"] }
rand = "0.8"
regex = "1"
tokio = { version = "1", features = ["full"] }
tokio-rustls = "0.23"
rustls-pemfile = "1"
webpki-roots = "0.22"
futures = "0.3"
async-trait = "0.1"
serde = { version = "1", features = ["derive"] }
serde_yaml = "0.9"
serde_json = "1"
env_logger = "0.10"
log = "0.4"
argh = "0.1"
tokio-util = { version = "0.7", features = ["time"] }
