[package]
name = "fing"
version = "0.1.0"
edition = "2021"
publish = false

[dependencies]
anyhow = "1"
chrono = { version = "=0.4.45", features = ["serde"] }
clap = { version = "4", features = ["derive"] }
comfy-table = "=7.2.2"
crossterm = "=0.28.1"
csv = "=1.4.0"
dirs = "6"
hex = "=0.4.3"
hickory-resolver = "0.26"
if-addrs = "0.13"
ipnet = "=2.12.2"
native-tls = "0.2"
pnet = "0.35"
quick-xml = "=0.38.4"
ratatui = "=0.29.0"
reqwest = { version = "=0.12.28", default-features = false, features = ["blocking", "native-tls"] }
serde = { version = "1", features = ["derive"] }
serde_json = "1"
sha2 = "=0.10.9"
socket2 = { version = "=0.5.10", features = ["all"] }
tokio = { version = "1", features = ["full"] }
x509-parser = "=0.17.0"
