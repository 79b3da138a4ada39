[package]
name = "jan_gateway"
version = "0.1.0"
edition = "2021"
publish = false

[dependencies]
sha2 = "0.10"
hex = "0.4"
rand = "0.8"
flate2 = "1"
tar = "0.4"
serde_json = "1"
libc = "0.2"
libloading = "0.8"
reqwest = { version = "0.11", default-features = false, features = ["blocking"] }
