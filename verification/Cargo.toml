[package]
name = "p2p_chat"
version = "0.1.0"
edition = "2021"
publish = false

[dependencies]
libp2p-identity = { version = "*", features = ["ed25519", "peerid", "rand"] }
libp2p-core = "*"
libp2p = { version = "*", features = ["tokio", "tcp", "noise", "yamux", "gossipsub", "kad", "mdns", "macros", "ed25519"] }
tokio = { version = "*", features = ["full"] }
futures = "*"
anyhow = "*"
log = "*"
