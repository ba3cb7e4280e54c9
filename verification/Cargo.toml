[package]
name = "custom_rule"
version = "0.1.0"
edition = "2021"
publish = false

[dependencies]
chrono = { version = "0.4", default-features = false, features = ["std"] }
humansize = "1.1"
gtk = "0.9"
