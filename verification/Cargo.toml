[package]
name = "orbit"
version = "0.1.0"
edition = "2021"
publish = false

[dependencies]
mdns-sd = "*"
qrcodegen = "1.8"
rand = "0.8"
serde = { version = "1", features = ["derive"] }
