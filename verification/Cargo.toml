[package]
name = "kepler_core"
version = "0.1.0"
edition = "2021"
publish = false

[dependencies]
grin_secp256k1zkp = "*"
blake2-rfc = "0.2"
siphasher = "0.3"
bincode = "1"
chrono = "0.4"
rand = "0.6"
serde = { version = "1", features = ["derive"] }
serde_derive = "1"
