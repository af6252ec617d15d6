[package]
name = "zatsu"
version = "0.1.0"
edition = "2021"
publish = false

[dependencies]
chrono = "*"
clap = { version = "*", features = ["derive"] }
flate2 = "*"
hex-string = "*"
serde = "*"
serde_derive = "*"
serde_json = "*"
sha1 = "*"
sha2 = "*"
