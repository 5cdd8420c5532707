[package]
name = "peer_score"
version = "0.1.0"
edition = "2021"
publish = false

[dependencies]
futures-timer = "3"
libp2p-identity = { version = "0.2", default-features = false, features = ["peerid"] }
web-time = "1"
