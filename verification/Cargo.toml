[package]
name = "vellum"
version = "0.1.0"
edition = "2021"
publish = false

[dependencies]
anyhow = "1"
flate2 = "1"
pkcs1 = { version = "0.7", features = ["pem"] }
pkcs8 = { version = "0.10", features = ["pem"] }
rsa = "0.9"
sha1 = { version = "0.10", features = ["oid"] }
sha2 = "0.10"
tar = "0.4"
ureq = { version = "2", default-features = false }

[dev-dependencies]
rand = "0.8"
