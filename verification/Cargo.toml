[package]
name = "state_api"
version = "0.1.0"
edition = "2021"
publish = false

[dependencies]
sha3 = "=0.10.9"
async-trait = "*"
serde = { version = "*", features = ["derive"] }
bcs = "*"
anyhow = "*"
