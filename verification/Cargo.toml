[package]
name = "share_one_list"
version = "0.1.0"
edition = "2021"
publish = false

[dependencies]
url = "=2.5.8"
chrono = "=0.4.45"
serde = { version = "=1.0.229", features = ["derive"] }
serde_json = "=1.0.154"
base64 = "=0.22.1"
sha2 = "=0.10.9"
rand = "=0.8.8"
uuid = { version = "=1.29.0", features = ["v4"] }
zip = { version = "=2.6.1", default-features = false, features = ["deflate"] }
quick-xml = "=0.36.2"
pdf-extract = "=0.7.12"
keyring = { version = "=3.6.3", features = ["apple-native", "windows-native", "linux-native"] }
rusqlite = { version = "=0.32.1", features = ["bundled"] }
