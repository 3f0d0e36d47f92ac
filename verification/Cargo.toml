[package]
name = "hermes"
version = "0.1.0"
edition = "2021"
publish = false

[dependencies]
clap = { version = "4", features = ["derive"] }
futures = "0.3"
libp2p = { version = "0.56", features = ["dcutr", "dns", "ed25519", "identify", "kad", "macros", "noise", "ping", "quic", "relay", "tcp", "tokio", "yamux"] }
sled = "0.34"
tokio = { version = "1", features = ["io-std", "io-util", "macros", "rt-multi-thread"] }
tracing = "0.1"
tracing-subscriber = { version = "0.3", features = ["env-filter"] }
