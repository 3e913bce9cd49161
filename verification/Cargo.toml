[package]
name = "cllx_fs_pro"
version = "0.1.0"
edition = "2021"
publish = false

[dependencies]
aes-gcm = "0.10"
chacha20poly1305 = "0.10"
chacha20 = "0.9"
blake3 = "1"
hkdf = "0.12"
sha2 = "0.10"
sha3 = "0.10"
rand = "0.8"
rand_chacha = "0.3"
pqc-ml-kem = "*"
serde = { version = "1", features = ["derive"] }
bincode = "1"
clap = { version = "4", features = ["derive"] }
thiserror = "1"
