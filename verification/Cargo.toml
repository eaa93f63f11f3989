[package]
name = "transaction_core"
version = "0.1.0"
edition = "2021"
publish = false

[dependencies]
blake2 = "=0.10.6"
curve25519-dalek = "=4.1.3"
hex_fmt = "=0.3.0"
merlin = "3"
prost = "0.13"
serde = { version = "1", features = ["derive"] }

[dev-dependencies]
rand = "0.8"
