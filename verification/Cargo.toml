[package]
name = "mneme"
version = "0.2.0"
edition = "2021"
publish = false

[dependencies]
sha2 = "=0.10.9"
uuid = { version = "=1.29.0", features = ["v4"] }
serde = { version = "=1.0.229", features = ["derive"] }
serde_json = "=1.0.154"
serde_yaml = "=0.9.34"
chrono = "=0.4.45"
tempfile = "=3.27.0"
reqwest = { version = "=0.12.28", default-features = false, features = ["rustls-tls"] }
tokio = { version = "=1.54.1", features = ["net", "rt", "macros"] }
url = "=2.5.8"
scraper = "=0.29.0"
pdf-extract = "=0.12.1"
keyring = "=3.6.3"
async-trait = "=0.1.92"
regex = "1"
