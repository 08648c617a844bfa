[package]
name = "domake"
version = "0.1.0"
edition = "2021"
publish = false

[dependencies]
chrono = { version = "0.4", default-features = false, features = ["clock"] }
console = "0.15"

[dev-dependencies]
regex = "1"
