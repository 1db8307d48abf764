[package]
name = "mpz-ot"
version = "0.1.0"
edition = "2021"
publish = false

[dependencies]
aes = "0.8"
blake3 = "1"
itybity = "0.2"
rand = "0.8"
rand_chacha = "0.3"
rand_core = "0.6"
serde = { version = "1", features = ["derive"] }
thiserror = "1"
async-trait = "0.1"
futures = "0.3"
serio = "0.2"
