[package]
name = "linguist"
version = "0.1.0"
edition = "2021"
publish = false

[dependencies]
regex = "*"
serde_yaml = "*"
reqwest = { version = "*", default-features = false, features = ["blocking", "rustls-tls"] }
tempfile = "*"
