[package]
name = "solar_sema"
version = "0.1.0"
edition = "2021"
publish = false

[dependencies]
alloy-primitives = { version = "=1.7.3", default-features = false }
serde = { version = "=1.0.229", features = ["derive"] }
