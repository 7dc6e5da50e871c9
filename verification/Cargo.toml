[package]
name = "workmux"
version = "0.1.0"
edition = "2021"
publish = false

[dependencies]
anyhow = "1"
home = "0.5"
serde = { version = "1", features = ["derive"] }
