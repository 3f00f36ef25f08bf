[package]
name = "paqus_node"
version = "0.1.0"
edition = "2021"
publish = false

[dependencies]
axum = "0.8"
borsh = { version = "1", features = ["derive"] }
hex = "0.4"
libp2p = { version = "*", features = ["tokio", "tcp", "noise", "yamux", "gossipsub", "request-response", "json", "identify", "ping", "macros"] }
lmdb = "*"
serde = { version = "1", features = ["derive"] }
serde_json = "1"
socket2 = "*"
tokio = { version = "1", features = ["rt-multi-thread", "net", "macros"] }
