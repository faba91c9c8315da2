[package]
name = "bridge_relayer"
version = "0.1.0"
edition = "2021"
publish = false

[dependencies]
alloy-primitives = "=1.7.3"
base64 = "=0.23.1"
bs58 = "=0.5.1"
solana-pubkey = { version = "=4.4.0", features = ["curve25519"] }
