[package]
name = "peer_manager"
version = "0.1.0"
edition = "2021"
publish = false

[dependencies]
discv5 = "*"
libp2p = { version = "*", default-features = false, features = ["identify"] }
smallvec = "*"
strum = { version = "*", features = ["derive"] }
tokio = { version = "*", features = ["rt", "time"] }
