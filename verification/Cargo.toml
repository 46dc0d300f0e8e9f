[package]
name = "vless_encryption"
version = "0.1.0"
edition = "2021"
publish = false

[dependencies]
aes = "0.8"
aes-gcm = "0.10"
blake3 = { version = "1.8", features = ["pure"] }
chacha20poly1305 = "0.10"
ctr = "0.9"
rand = "0.9"
