[package]
name = "transportation"
version = "0.1.0"
edition = "2021"
publish = false

[dependencies]
mio = "=0.6.23"
nix = "=0.26.4"
ring = "0.17"
libflate = "=2.3.2"
serde = { version = "=1.0.229", features = ["derive"] }
serde_cbor = "=0.11.2"
