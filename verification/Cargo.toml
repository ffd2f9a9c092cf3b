[package]
name = "openstorage"
version = "0.1.0"
edition = "2021"
publish = false

[dependencies]
aes-gcm = "=0.10.3"
argon2 = "=0.5.3"
async-trait = "=0.1.92"
axum = "=0.7.9"
base32 = "=0.5.1"
blake3 = "=1.8.7"
bytes = "=1.12.1"
chacha20poly1305 = "=0.10.1"
ciborium = "=0.2.2"
ed25519-dalek = { version = "=2.2.0", features = ["rand_core"] }
futures = "=0.3.34"
hex = "=0.4.3"
hkdf = "=0.12.4"
keyring = "=2.3.3"
rand = "=0.8.8"
rand_core = "=0.6.4"
reed-solomon-erasure = "=6.0.0"
reqwest = { version = "=0.12.28", default-features = false, features = ["json", "multipart", "stream"] }
serde = { version = "=1.0.229", features = ["derive"] }
serde_bytes = "=0.11.19"
serde_json = "=1.0.154"
sha2 = "=0.10.9"
sled = "=0.34.7"
thiserror = "=1.0.69"
tokio = { version = "=1.54.1", features = ["rt-multi-thread", "macros", "sync", "time", "fs", "io-util"] }
tokio-util = { version = "=0.7.20", features = ["io"] }
tracing = "=0.1.44"
uuid = { version = "=1.29.0", features = ["v7"] }
zeroize = { version = "=1.9.1", features = ["derive"] }
