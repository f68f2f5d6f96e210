[package]
name = "pallets"
version = "0.1.0"
edition = "2021"
publish = false

[dependencies]
anyhow = "=1.0.104"
parity-scale-codec = "=3.7.5"
sp-io = "=49.0.0"
tokio = { version = "=1.54.1", features = ["full"] }
