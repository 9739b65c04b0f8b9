[package]
name = "router_core"
version = "0.1.0"
edition = "2021"
publish = false

[dependencies]
anyhow = "1"
directories = "5"
hex = "0.4"
ipnetwork = "0.20"
keyring = "2"
md5 = "0.7"
pnet = "0.34"
reqwest = { version = "0.11", default-features = false, features = ["blocking", "cookies", "json", "rustls-tls"] }
serde = { version = "1", features = ["derive"] }
serde_json = "1"
sha2 = "0.10"
thiserror = "1"
