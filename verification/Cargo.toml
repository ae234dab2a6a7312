[package]
name = "cutix_native"
version = "0.1.0"
edition = "2021"
publish = false

[dependencies]
sha2 = "0.10"
serde = { version = "1", features = ["derive"] }
serde_json = "1"
flate2 = "1"
zip = { version = "2", default-features = false, features = ["deflate"] }
ureq = "2"
dirs = "5"
