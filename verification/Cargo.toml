[package]
name = "nursery"
version = "0.1.0"
edition = "2021"

[dependencies]
rand = "0.8"
uuid = { version = "1", features = ["v4"] }
