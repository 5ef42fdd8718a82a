[package]
name = "framed_codec"
version = "0.1.0"
edition = "2021"
publish = false

[dependencies]
alloy-rlp = "*"
alloy-primitives = "*"
tokio-util = { version = "*", features = ["codec"] }
