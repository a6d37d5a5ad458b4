[package]
name = "mikmik_tools"
version = "0.1.0"
edition = "2021"
publish = false

[dependencies]
async-trait = "0.1"
base64 = "=0.22.1"
chrono = "0.4"
dashmap = "=6.2.1"
futures = "0.3"
getrandom = "=0.2.17"
glob = "=0.3.4"
grep-regex = "=0.1.14"
grep-searcher = "=0.1.17"
ignore = "=0.4.34"
libc = "0.2"
parking_lot = "0.12"
regex = "=1.13.1"
reqwest = { version = "0.12", default-features = false, features = ["json", "multipart", "rustls-tls"] }
rusqlite = { version = "0.32", features = ["bundled"] }
serde = { version = "1", features = ["derive"] }
serde_json = "=1.0.154"
sha2 = "=0.10.9"
thiserror = "1"
tokio = { version = "1", features = ["full"] }
tokio-tungstenite = "0.24"
toml = "0.8"
uuid = { version = "=1.29.0", features = ["v4"] }
which = "6"
