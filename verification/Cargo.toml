[package]
name = "browser_core"
version = "0.1.0"
edition = "2021"
publish = false

[dependencies]
chunked_transfer = "1"
flate2 = "1"
rustls = "0.21"
rustls-native-certs = "0.6"
