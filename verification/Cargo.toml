[package]
name = "aura-core"
version = "0.1.0"
edition = "2021"
publish = false

[dependencies]
rand = "=0.10.3"
sha1 = "=0.11.0"
sha2 = "=0.11.1"
url = "=2.5.8"
quick-xml = "=0.42.0"
serde_bencode = "=0.2.4"
serde = { version = "=1.0.229", features = ["derive"] }
serde_bytes = "=0.11.19"
serde_json = "=1.0.154"
toml = "=1.1.8"
tokio = { version = "=1.54.1", features = ["rt-multi-thread", "macros", "net", "fs", "io-util", "sync", "time"] }
bytes = "=1.12.1"
thiserror = "=2.0.21"
local-ip-address = "=0.6.13"
reqwest = { version = "=0.13.5", default-features = false, features = ["stream"] }
futures-util = "=0.3.34"
clap = { version = "=4.6.7", features = ["derive"] }
axum = "=0.8.9"
ratatui = "=0.30.2"
crossterm = "=0.29.0"
suppaftp = "=12.2.1"
igd-next = "=0.18.0"
indicatif = "=0.18.6"
bytesize = "=2.7.0"
crab_nat = "*"
