[package]
name = "lso_core"
version = "0.1.0"
edition = "2021"
publish = false

[dependencies]
libp2p = { version = "0.56", features = ["tokio", "tcp", "quic", "noise", "yamux", "dns", "relay", "dcutr", "identify", "ping", "kad", "mdns", "upnp", "macros", "ed25519"] }
libp2p-stream = "0.4.0-alpha"
sha2 = "0.10"
base64 = "0.22"
getrandom = "0.3"
blake3 = "1"
serde = { version = "1", features = ["derive"] }
serde_json = "1"
either = "1"
tokio = { version = "1", features = ["rt-multi-thread", "macros", "time", "sync", "fs", "io-util", "io-std", "signal"] }
tokio-util = { version = "0.7", features = ["compat"] }
futures = "0.3"
futures-lite = "2"
anyhow = "1"
clap = { version = "4", features = ["derive"] }
indicatif = "*"
directories = "*"
tracing = "0.1"
tracing-subscriber = { version = "0.3", features = ["env-filter"] }
