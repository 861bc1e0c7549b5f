[package]
name = "nexus_core"
version = "0.1.0"
edition = "2021"
publish = false

[dependencies]
sha2 = "=0.10.9"
blake3 = "=1.8.7"
chacha20poly1305 = "=0.10.1"
fastcdc = "=3.2.1"
hex = "=0.4.3"
uuid = { version = "=1.29.0", features = ["serde", "v4"] }
rand = "=0.8.8"
serde = { version = "=1.0.229", features = ["derive"] }
serde_json = "=1.0.154"
serde_yaml = "=0.9.34"
toml = "=0.8.23"
dirs = "=5.0.1"
bincode = "=1.3.3"
zstd = "=0.13.4"
tokio = { version = "=1.54.1", features = ["io-util", "rt", "macros"] }
urlencoding = "=2.1.3"
openraft = "0.9"
