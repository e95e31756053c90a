[package]
name = "forgeann"
version = "0.1.0"
edition = "2021"
publish = false

[dependencies]
crossbeam = "0.8"
io-uring = "0.7"
libc = "0.2"
memmap2 = "0.9"
ndarray = "0.16"
parking_lot = "0.12"
rand = "0.9"
rayon = "1"
serde = { version = "1", features = ["derive"] }
serde_json = "1"
thiserror = "2"
