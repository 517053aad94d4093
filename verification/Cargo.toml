[package]
name = "gpbeam"
version = "0.1.0"
edition = "2021"
publish = false

[dependencies]
async-trait = "0.1"
blake3 = { version = "1", features = ["mmap", "rayon"] }
chrono = "0.4"
fs4 = "*"
hex = "0.4"
if-addrs = "*"
kamadak-exif = "*"
keyring = "3"
md-5 = "0.10"
quick-xml = "0.37"
rand = "0.9"
reqwest = { version = "0.13", default-features = false, features = ["rustls", "stream"] }
rusqlite = { version = "*", features = ["bundled"] }
serde = { version = "1", features = ["derive"] }
serde_json = "1"
sysinfo = "*"
tempfile = "3"
thiserror = "2"
tokio = { version = "1", features = ["full"] }
tokio-util = { version = "0.7", features = ["io"] }
toml = "0.8"
url = "2"
uuid = { version = "1", features = ["v4"] }
zeroize = { version = "1", features = ["derive"] }
