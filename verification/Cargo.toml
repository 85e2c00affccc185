[package]
name = "teleprint"
version = "0.1.0"
edition = "2021"
publish = false

[dependencies]
sha1 = "=0.10.7"
rand = "=0.8.8"
mailparse = "=0.18.0"
serde = { version = "=1.0.229", features = ["derive"] }
serde_json = "1"
toml = "=1.1.6"
reqwest = { version = "=0.12.28", default-features = false, features = ["blocking", "rustls-tls", "multipart", "json"] }
imap = "=2.4.1"
native-tls = "=0.2.18"
thread_tryjoin = "=0.3.0"
