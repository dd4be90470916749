[package]
name = "downlink_padding"
version = "0.1.0"
edition = "2021"
publish = false

[dependencies]
tokio = { version = "1", default-features = false, features = ["io-util", "rt"] }
