[package]
name = "halo2_learning"
version = "0.1.0"
edition = "2021"
publish = false

[dependencies]
halo2_proofs = "0.2.0"
serde = { version = "1", features = ["derive"] }
serde_json = "1"
clap = { version = "4", features = ["derive"] }
env_logger = "0.10"
