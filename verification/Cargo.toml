[package]
name = "context_court"
version = "0.1.0"
edition = "2021"
publish = false

[dependencies]
bounded-collections = "*"
hex = "0.4"
parity-scale-codec = "3"
serde = { version = "1", features = ["derive"] }
sp-crypto-hashing = "*"
