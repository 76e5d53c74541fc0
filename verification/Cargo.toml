[package]
name = "pallet_dkg"
version = "0.1.0"
edition = "2021"
publish = false

[dependencies]
parity-scale-codec = "1.3.7"
futures = "0.3"
parking_lot = "0.11"
log = "0.4"
serde = { version = "1", features = ["derive"] }
