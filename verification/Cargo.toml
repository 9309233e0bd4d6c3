[package]
name = "harpoon"
version = "0.1.0"
edition = "2021"
publish = false

[dependencies]
schemars = "=1.2.3"
serde = { version = "=1.0.229", features = ["derive"] }
