[package]
name = "securechat_core"
version = "0.1.0"
edition = "2021"
publish = false

[dependencies]
aes-gcm = "=0.10.3"
argon2 = "=0.5.3"
ed25519-dalek = { version = "=2.2.0", features = ["rand_core"] }
hkdf = "=0.12.4"
sha2 = "=0.10.9"
x25519-dalek = { version = "=2.0.1", features = ["static_secrets"] }
rand = "=0.8.8"
rand_core = { version = "=0.6.4", features = ["getrandom"] }
blake3 = "=1.8.7"
base64 = "=0.21.7"
anyhow = "=1.0.104"
serde = { version = "=1.0.229", features = ["derive"] }
bincode = "=1.3.3"
sled = "=0.34.7"
time = { version = "=0.3.55", features = ["serde"] }
tokio = { version = "=1.54.1", features = ["sync", "rt", "macros"] }
futures = "=0.3.34"
serde_json = "=1.0.154"
log = "=0.4.34"
directories = "5"
libp2p = { version = "0.54", features = ["async-std", "gossipsub", "noise", "tcp", "yamux", "quic", "macros"] }
