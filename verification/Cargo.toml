[package]
name = "mima"
version = "0.1.0"
edition = "2021"
publish = false

[dependencies]
sodiumoxide = "=0.2.7"
uuid = { version = "=1.27.0", features = ["v4"] }
chrono = "=0.4.45"
