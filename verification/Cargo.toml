[package]
name = "core_web"
version = "0.1.0"
edition = "2021"
publish = false

[dependencies]
base64 = "=0.22.1"
chrono = "=0.4.45"
sha2 = "=0.10.9"
url = "=2.5.8"
flate2 = "=1.1.10"
tar = "=0.4.46"
walkdir = "=2.5.0"
dirs = "=5.0.1"
serde_json = "=1.0.154"
lru = "*"
