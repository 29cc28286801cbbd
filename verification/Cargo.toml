[package]
name = "vanity_miner"
version = "0.1.0"
edition = "2021"
publish = false

[dependencies]
bs58 = "0.5"
hex = "0.4"
serde_json = "1"
ed25519-dalek = "1.0.1"
rand = "0.7"
rand_chacha = "0.2"
bitcoin = "0.32"
chrono = "0.4"
clap = { version = "4", features = ["derive"] }
num_cpus = "1"
rayon = "1"
