[package]
name = "owlport"
version = "0.1.0"
edition = "2021"
publish = false

[dependencies]
libp2p-identity = { version = "*", features = ["peerid"] }
serde = { version = "*", features = ["derive"] }
tokio = { version = "*", features = ["rt", "rt-multi-thread", "sync", "macros"] }
