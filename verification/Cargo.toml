[package]
name = "luckypool"
version = "0.1.0"
edition = "2021"
publish = false

[dependencies]
base64 = "*"
ed25519-dalek = "*"
hmac = "*"
sha3 = "*"
