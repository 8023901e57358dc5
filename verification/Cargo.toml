[package]
name = "rndwalker"
version = "0.1.0"
edition = "2021"
publish = false

[dependencies]
fastrand = "2"
self_update = { version = "0.42", default-features = false }
serde = { version = "1", features = ["derive"] }
serde_json = "1"
directories = "5"
anyhow = "1"
