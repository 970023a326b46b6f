[package]
name = "rust_proxy"
version = "0.1.0"
edition = "2021"
publish = false

[dependencies]
android_logger = "0.14"
anyhow = "1"
base64 = "0.22"
clap = { version = "4", features = ["derive"] }
colored = "2"
dashmap = "6"
env_logger = "0.11"
inquire = "0.7"
jni = "0.21"
lazy_static = "1"
log = "0.4"
qrcode = { version = "0.14", default-features = false, features = ["svg"] }
rcgen = "0.13"
rustls = { version = "0.23", default-features = false, features = ["ring", "std", "tls12", "logging"] }
serde = { version = "1", features = ["derive"] }
serde_json = "1"
sha2 = "0.10"
socket2 = { version = "0.5", features = ["all"] }
tokio = { version = "1", features = ["full"] }
tokio-rustls = { version = "0.26", default-features = false, features = ["ring", "tls12", "logging"] }
