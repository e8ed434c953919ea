[package]
name = "beemo_joins"
version = "0.1.0"
edition = "2021"
publish = false

[dependencies]
chrono = "*"
humantime = "*"
reqwest = { version = "*", default-features = false, features = ["blocking"] }
