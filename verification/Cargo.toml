[package]
name = "tor_messenger"
version = "0.1.0"
edition = "2021"
publish = false

[dependencies]
base64 = "0.22"
chacha20poly1305 = "0.10"
chrono = "0.4"
curve25519-dalek = "4"
ed25519-dalek = { version = "2", features = ["hazmat", "rand_core"] }
futures = "0.3"
hkdf = "0.12"
libp2p = { version = "0.54", default-features = false, features = ["kad", "tcp", "noise", "yamux", "dns", "tokio", "macros"] }
rand = "0.8"
sha2 = "0.10"
socks = "0.3"
tokio = { version = "1", features = ["rt", "time", "macros"] }
uuid = { version = "1", features = ["v4"] }
x25519-dalek = { version = "2", features = ["static_secrets"] }
