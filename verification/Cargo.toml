[package]
name = "subforge_core"
version = "0.1.0"
edition = "2021"
publish = false

[dependencies]
base64 = "=0.22.1"
brotli = "=9.1.1"
flate2 = "=1.1.10"
regex = "1"
reqwest = { version = "=0.12.28", default-features = false }
serde = { version = "=1.0.229", features = ["derive"] }
serde_json = "=1.0.154"
serde_yaml = "=0.9.34"
time = { version = "=0.3.55", features = ["formatting"] }
tokio = { version = "=1.54.1", features = ["time"] }
zip = { version = "=2.6.1", default-features = false, features = ["deflate"] }
