[package]
name = "stage_runtime"
version = "0.1.0"
edition = "2021"
publish = false

[dependencies]
serde_json = { version = "=1.0.154", features = ["float_roundtrip"] }
base64 = "=0.22.1"
url = "=2.5.8"
