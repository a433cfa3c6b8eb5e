[package]
name = "tiny_nix_ipc"
version = "0.1.0"
edition = "2021"
publish = false

[dependencies]
bincode = "1"
error-chain = { version = "0.12", default-features = false }
nix = "0.23"
serde = "1"
serde_cbor = "0.11"
serde_json = "1"
zerocopy = "0.7"
