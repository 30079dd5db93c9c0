[package]
name = "vchain_plus"
version = "0.1.0"
edition = "2021"
publish = false

[dependencies]
anyhow = "1"
ark-bn254 = "0.3"
ark-ec = "0.3"
ark-ff = "0.3"
blake2 = "0.10"
derive_more = "0.99"
petgraph = "0.6"
serde = { version = "1", features = ["derive"] }

[dev-dependencies]
rand = "0.8"
