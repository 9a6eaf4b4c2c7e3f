[package]
name = "triadchain"
version = "0.1.0"
edition = "2021"
publish = false

[dependencies]
rust_decimal = "1"
blake3 = "1"
uuid = { version = "1", features = ["v4", "serde"] }
serde = { version = "1", features = ["derive"] }
serde_json = "1"
thiserror = "1"
tokio = { version = "1", features = ["full"] }
chrono = "0.4"
clap = { version = "4", features = ["derive"] }
num_cpus = "1"
ed25519-dalek = "2"
rand = "0.8"
