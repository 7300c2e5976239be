[package]
name = "eq-network"
version = "0.1.0"
edition = "2021"
publish = false

[dependencies]
cbc = "0.1"
des = "0.8"
zeroize = "1"
serde = { version = "1", features = ["derive"] }
thiserror = "2"
