[package]
name = "melwalletd"
version = "0.1.0"
edition = "2021"
publish = false

[dependencies]
tmelcrypt = "=0.2.7"
melstructs = "=0.3.3"
melvm = "=0.1.1"
stdcode = "=0.1.14"
rust-argon2 = "=1.0.1"
crypto_api_chachapoly = "=0.5.0"
getrandom = "=0.2.17"
lru = "=0.7.8"
base32 = "=0.5.1"
ed25519-dalek = "=1.0.1"
fastrand = "=2.5.0"
hex = "=0.4.3"
rusqlite = { version = "=0.41.0", default-features = false }
anyhow = "1"
log = "0.4"
serde = { version = "1", features = ["derive"] }
serde_json = "1"
clap = { version = "3", features = ["derive"] }
serde_yaml = "0.8"
atomicwrites = "0.3"
parking_lot = "0.12"
dashmap = "=5.5.3"

[dev-dependencies]
binary-search = "=0.1.3"
