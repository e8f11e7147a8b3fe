[package]
name = "koc_core"
version = "0.1.0"
edition = "2021"
publish = false

[dependencies]
lz4_flex = "=0.14.0"
rand = "=0.10.3"
base64 = "=0.23.1"
md-5 = "=0.11.0"
serde = { version = "=1.0.229", features = ["derive"] }
serde_json = "=1.0.154"
chrono = "=0.4.45"
url = "2"
