[package]
name = "zkvm"
version = "0.1.0"
edition = "2021"
publish = false

[dependencies]
bulletproofs = { version = "=4.0.0", features = ["yoloproofs"] }
curve25519-dalek = "=4.1.3"
merlin = "=3.0.0"

[dev-dependencies]
rand = "=0.8.8"
