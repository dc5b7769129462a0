[package]
name = "buckyos_backup"
version = "0.1.0"
edition = "2021"
publish = false

[dependencies]
sha2 = "=0.10.9"
base58 = "=0.2.0"
aes = "=0.8.4"
cbc = "=0.1.2"
cipher = "=0.4.4"
url = "=2.5.8"
uuid = { version = "=1.29.0", features = ["v4"] }
chrono = "=0.4.45"
serde = { version = "=1.0.229", features = ["derive"] }
serde_json = "=1.0.154"
crossbeam = "0.8"
notify = "*"
rusqlite = { version = "*", features = ["bundled"] }
