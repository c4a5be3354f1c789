[package]
name = "fossgraph"
version = "0.1.0"
edition = "2021"
publish = false

[dependencies]
percent-encoding = "=2.3.2"
serde_yaml = "=0.9.34"
url = "=2.5.8"
anyhow = "=1.0.104"
bytes = "=1.12.1"
flate2 = "=1.1.10"
reqwest = { version = "=0.11.27", default-features = false, features = ["rustls-tls"] }
tar = "=0.4.46"
thiserror = "=1.0.69"
tokio = { version = "=1.54.1", features = ["macros", "rt-multi-thread", "fs", "io-util"] }
zip = "=0.6.6"

[dev-dependencies]
fancy-regex = "0.13"
